//! Object-centric event logs (OCEL 2.0) and their five relational tables.

use crate::float_literal::FloatLiteral;
use crate::object_index::ObjectIndex;
use crate::rows::{counts_of, list_rows, pairs_view, row_pairs, total};
use crate::sorting::{chronological_order, is_chronological};
use crate::table::{CellValue, CellView, Column, ColumnView, Table, TableView};
use crate::text::{add_name, distinct, names_view};
use crate::time::Timestamp;
use vstd::prelude::*;

verus! {

pub const OCEL_EVENT_ID_KEY: &'static str = "ocel:eid";

pub const OCEL_EVENT_TYPE_KEY: &'static str = "ocel:activity";

pub const OCEL_EVENT_TIMESTAMP_KEY: &'static str = "ocel:timestamp";

pub const OCEL_OBJECT_ID_KEY: &'static str = "ocel:oid";

pub const OCEL_OBJECT_ID_2_KEY: &'static str = "ocel:oid_2";

pub const OCEL_OBJECT_TYPE_KEY: &'static str = "ocel:type";

pub const OCEL_QUALIFIER_KEY: &'static str = "ocel:qualifier";

pub const OCEL_CHANGED_FIELD_KEY: &'static str = "ocel:field";

/// The value of an attribute of an event or of an object.
#[derive(Debug)]
pub enum OCELAttributeValue {
    String(String),
    Time(Timestamp),
    Integer(i64),
    Float(FloatLiteral),
    Boolean(bool),
    Null,
}

/// An attribute that a type declares for its instances.
#[derive(Debug)]
pub struct OCELTypeAttribute {
    pub name: String,
    pub value_type: String,
}

/// An event type or an object type: the attributes that its instances may
/// have.
#[derive(Debug)]
pub struct OCELType {
    pub name: String,
    pub attributes: Vec<OCELTypeAttribute>,
}

/// An attribute of an event.
#[derive(Debug)]
pub struct OCELEventAttribute {
    pub name: String,
    pub value: OCELAttributeValue,
}

/// One entry in the history of an object's attribute: the value that the
/// attribute has from `time` on. The entry at the epoch is the initial value.
#[derive(Debug)]
pub struct OCELObjectAttribute {
    pub name: String,
    pub value: OCELAttributeValue,
    pub time: Timestamp,
}

/// A qualified reference to an object.
#[derive(Debug)]
pub struct OCELRelationship {
    pub object_id: String,
    pub qualifier: String,
}

/// An event, with the objects it involves.
#[derive(Debug)]
pub struct OCELEvent {
    pub id: String,
    pub event_type: String,
    pub time: Timestamp,
    pub attributes: Vec<OCELEventAttribute>,
    pub relationships: Option<Vec<OCELRelationship>>,
}

/// An object, with the history of its attributes and the objects it is
/// related to.
#[derive(Debug)]
pub struct OCELObject {
    pub id: String,
    pub object_type: String,
    pub attributes: Vec<OCELObjectAttribute>,
    pub relationships: Option<Vec<OCELRelationship>>,
}

/// An object-centric event log.
#[derive(Debug)]
pub struct OCEL {
    pub event_types: Vec<OCELType>,
    pub object_types: Vec<OCELType>,
    pub events: Vec<OCELEvent>,
    pub objects: Vec<OCELObject>,
}

/// The five tables of an object-centric event log.
#[derive(Debug)]
pub struct OCEL2DataFrames {
    pub objects: Table,
    pub events: Table,
    pub object_changes: Table,
    pub o2o: Table,
    pub e2o: Table,
}

/// What a run of values holds.
pub open spec fn views<T: View>(s: Seq<T>) -> Seq<T::V> {
    Seq::new(s.len(), |i: int| s[i]@)
}

/// The value of an attribute, with texts.
pub enum OCELValueView {
    String(Seq<char>),
    Time(Timestamp),
    Integer(i64),
    Float(Seq<char>),
    Boolean(bool),
    Null,
}

/// What a declared attribute holds.
pub struct OCELTypeAttributeView {
    pub name: Seq<char>,
    pub value_type: Seq<char>,
}

/// What a type holds.
pub struct OCELTypeView {
    pub name: Seq<char>,
    pub attributes: Seq<OCELTypeAttributeView>,
}

/// What an attribute of an event holds.
pub struct OCELEventAttributeView {
    pub name: Seq<char>,
    pub value: OCELValueView,
}

/// What an entry in the history of an object's attribute holds.
pub struct OCELObjectAttributeView {
    pub name: Seq<char>,
    pub value: OCELValueView,
    pub time: Timestamp,
}

/// What a reference to an object holds.
pub struct OCELRelationshipView {
    pub object_id: Seq<char>,
    pub qualifier: Seq<char>,
}

/// What an event holds.
pub struct OCELEventView {
    pub id: Seq<char>,
    pub event_type: Seq<char>,
    pub time: Timestamp,
    pub attributes: Seq<OCELEventAttributeView>,
    pub relationships: Option<Seq<OCELRelationshipView>>,
}

/// What an object holds.
pub struct OCELObjectView {
    pub id: Seq<char>,
    pub object_type: Seq<char>,
    pub attributes: Seq<OCELObjectAttributeView>,
    pub relationships: Option<Seq<OCELRelationshipView>>,
}

/// What an object-centric event log holds.
pub struct OCELView {
    pub event_types: Seq<OCELTypeView>,
    pub object_types: Seq<OCELTypeView>,
    pub events: Seq<OCELEventView>,
    pub objects: Seq<OCELObjectView>,
}

impl View for OCELAttributeValue {
    type V = OCELValueView;

    open spec fn view(&self) -> OCELValueView {
        match self {
            OCELAttributeValue::String(s) => OCELValueView::String(s@),
            OCELAttributeValue::Time(t) => OCELValueView::Time(*t),
            OCELAttributeValue::Integer(n) => OCELValueView::Integer(*n),
            OCELAttributeValue::Float(f) => OCELValueView::Float(f@),
            OCELAttributeValue::Boolean(b) => OCELValueView::Boolean(*b),
            OCELAttributeValue::Null => OCELValueView::Null,
        }
    }
}

impl View for OCELTypeAttribute {
    type V = OCELTypeAttributeView;

    open spec fn view(&self) -> OCELTypeAttributeView {
        OCELTypeAttributeView { name: self.name@, value_type: self.value_type@ }
    }
}

impl View for OCELType {
    type V = OCELTypeView;

    open spec fn view(&self) -> OCELTypeView {
        OCELTypeView { name: self.name@, attributes: views(self.attributes@) }
    }
}

impl View for OCELEventAttribute {
    type V = OCELEventAttributeView;

    open spec fn view(&self) -> OCELEventAttributeView {
        OCELEventAttributeView { name: self.name@, value: self.value@ }
    }
}

impl View for OCELObjectAttribute {
    type V = OCELObjectAttributeView;

    open spec fn view(&self) -> OCELObjectAttributeView {
        OCELObjectAttributeView { name: self.name@, value: self.value@, time: self.time }
    }
}

impl View for OCELRelationship {
    type V = OCELRelationshipView;

    open spec fn view(&self) -> OCELRelationshipView {
        OCELRelationshipView { object_id: self.object_id@, qualifier: self.qualifier@ }
    }
}

/// What an optional run of references holds.
pub open spec fn relationships_view(relationships: Option<Vec<OCELRelationship>>) -> Option<
    Seq<OCELRelationshipView>,
> {
    match relationships {
        Some(r) => Some(views(r@)),
        None => None,
    }
}

impl View for OCELEvent {
    type V = OCELEventView;

    open spec fn view(&self) -> OCELEventView {
        OCELEventView {
            id: self.id@,
            event_type: self.event_type@,
            time: self.time,
            attributes: views(self.attributes@),
            relationships: relationships_view(self.relationships),
        }
    }
}

impl View for OCELObject {
    type V = OCELObjectView;

    open spec fn view(&self) -> OCELObjectView {
        OCELObjectView {
            id: self.id@,
            object_type: self.object_type@,
            attributes: views(self.attributes@),
            relationships: relationships_view(self.relationships),
        }
    }
}

impl View for OCEL {
    type V = OCELView;

    open spec fn view(&self) -> OCELView {
        OCELView {
            event_types: views(self.event_types@),
            object_types: views(self.object_types@),
            events: views(self.events@),
            objects: views(self.objects@),
        }
    }
}

impl Clone for OCELAttributeValue {
    fn clone(&self) -> (r: Self)
        ensures
            r@ == self@,
    {
        match self {
            OCELAttributeValue::String(s) => OCELAttributeValue::String(s.clone()),
            OCELAttributeValue::Time(t) => OCELAttributeValue::Time(*t),
            OCELAttributeValue::Integer(n) => OCELAttributeValue::Integer(*n),
            OCELAttributeValue::Float(f) => OCELAttributeValue::Float(f.clone()),
            OCELAttributeValue::Boolean(b) => OCELAttributeValue::Boolean(*b),
            OCELAttributeValue::Null => OCELAttributeValue::Null,
        }
    }
}

impl Clone for OCELTypeAttribute {
    fn clone(&self) -> (r: Self)
        ensures
            r@ == self@,
    {
        OCELTypeAttribute { name: self.name.clone(), value_type: self.value_type.clone() }
    }
}

impl Clone for OCELEventAttribute {
    fn clone(&self) -> (r: Self)
        ensures
            r@ == self@,
    {
        OCELEventAttribute { name: self.name.clone(), value: self.value.clone() }
    }
}

impl Clone for OCELObjectAttribute {
    fn clone(&self) -> (r: Self)
        ensures
            r@ == self@,
    {
        OCELObjectAttribute {
            name: self.name.clone(),
            value: self.value.clone(),
            time: self.time,
        }
    }
}

impl Clone for OCELRelationship {
    fn clone(&self) -> (r: Self)
        ensures
            r@ == self@,
    {
        OCELRelationship { object_id: self.object_id.clone(), qualifier: self.qualifier.clone() }
    }
}

fn clone_type_attributes(list: &Vec<OCELTypeAttribute>) -> (r: Vec<OCELTypeAttribute>)
    ensures
        views(r@) == views(list@),
{
    let mut r: Vec<OCELTypeAttribute> = Vec::new();
    let mut i: usize = 0;
    while i < list.len()
        invariant
            i <= list.len(),
            views(r@) == views(list@).take(i as int),
        decreases list.len() - i,
    {
        let item = list[i].clone();
        proof {
            assert(views(r@.push(item)) == views(r@).push(item@));
            assert(views(list@).take(i + 1) == views(list@).take(i as int).push(item@));
        }
        r.push(item);
        i += 1;
    }
    assert(views(list@).take(list.len() as int) == views(list@));
    r
}

fn clone_event_attributes(list: &Vec<OCELEventAttribute>) -> (r: Vec<OCELEventAttribute>)
    ensures
        views(r@) == views(list@),
{
    let mut r: Vec<OCELEventAttribute> = Vec::new();
    let mut i: usize = 0;
    while i < list.len()
        invariant
            i <= list.len(),
            views(r@) == views(list@).take(i as int),
        decreases list.len() - i,
    {
        let item = list[i].clone();
        proof {
            assert(views(r@.push(item)) == views(r@).push(item@));
            assert(views(list@).take(i + 1) == views(list@).take(i as int).push(item@));
        }
        r.push(item);
        i += 1;
    }
    assert(views(list@).take(list.len() as int) == views(list@));
    r
}

fn clone_object_attributes(list: &Vec<OCELObjectAttribute>) -> (r: Vec<OCELObjectAttribute>)
    ensures
        views(r@) == views(list@),
{
    let mut r: Vec<OCELObjectAttribute> = Vec::new();
    let mut i: usize = 0;
    while i < list.len()
        invariant
            i <= list.len(),
            views(r@) == views(list@).take(i as int),
        decreases list.len() - i,
    {
        let item = list[i].clone();
        proof {
            assert(views(r@.push(item)) == views(r@).push(item@));
            assert(views(list@).take(i + 1) == views(list@).take(i as int).push(item@));
        }
        r.push(item);
        i += 1;
    }
    assert(views(list@).take(list.len() as int) == views(list@));
    r
}

fn clone_relationship_list(list: &Vec<OCELRelationship>) -> (r: Vec<OCELRelationship>)
    ensures
        views(r@) == views(list@),
{
    let mut r: Vec<OCELRelationship> = Vec::new();
    let mut i: usize = 0;
    while i < list.len()
        invariant
            i <= list.len(),
            views(r@) == views(list@).take(i as int),
        decreases list.len() - i,
    {
        let item = list[i].clone();
        proof {
            assert(views(r@.push(item)) == views(r@).push(item@));
            assert(views(list@).take(i + 1) == views(list@).take(i as int).push(item@));
        }
        r.push(item);
        i += 1;
    }
    assert(views(list@).take(list.len() as int) == views(list@));
    r
}

fn clone_relationships(relationships: &Option<Vec<OCELRelationship>>) -> (r: Option<
    Vec<OCELRelationship>,
>)
    ensures
        relationships_view(r) == relationships_view(*relationships),
{
    match relationships {
        Some(list) => Some(clone_relationship_list(list)),
        None => None,
    }
}

impl Clone for OCELType {
    fn clone(&self) -> (r: Self)
        ensures
            r@ == self@,
    {
        OCELType { name: self.name.clone(), attributes: clone_type_attributes(&self.attributes) }
    }
}

impl Clone for OCELEvent {
    fn clone(&self) -> (r: Self)
        ensures
            r@ == self@,
    {
        OCELEvent {
            id: self.id.clone(),
            event_type: self.event_type.clone(),
            time: self.time,
            attributes: clone_event_attributes(&self.attributes),
            relationships: clone_relationships(&self.relationships),
        }
    }
}

impl Clone for OCELObject {
    fn clone(&self) -> (r: Self)
        ensures
            r@ == self@,
    {
        OCELObject {
            id: self.id.clone(),
            object_type: self.object_type.clone(),
            attributes: clone_object_attributes(&self.attributes),
            relationships: clone_relationships(&self.relationships),
        }
    }
}

fn clone_types(list: &Vec<OCELType>) -> (r: Vec<OCELType>)
    ensures
        views(r@) == views(list@),
{
    let mut r: Vec<OCELType> = Vec::new();
    let mut i: usize = 0;
    while i < list.len()
        invariant
            i <= list.len(),
            views(r@) == views(list@).take(i as int),
        decreases list.len() - i,
    {
        let item = list[i].clone();
        proof {
            assert(views(r@.push(item)) == views(r@).push(item@));
            assert(views(list@).take(i + 1) == views(list@).take(i as int).push(item@));
        }
        r.push(item);
        i += 1;
    }
    assert(views(list@).take(list.len() as int) == views(list@));
    r
}

fn clone_events(list: &Vec<OCELEvent>) -> (r: Vec<OCELEvent>)
    ensures
        views(r@) == views(list@),
{
    let mut r: Vec<OCELEvent> = Vec::new();
    let mut i: usize = 0;
    while i < list.len()
        invariant
            i <= list.len(),
            views(r@) == views(list@).take(i as int),
        decreases list.len() - i,
    {
        let item = list[i].clone();
        proof {
            assert(views(r@.push(item)) == views(r@).push(item@));
            assert(views(list@).take(i + 1) == views(list@).take(i as int).push(item@));
        }
        r.push(item);
        i += 1;
    }
    assert(views(list@).take(list.len() as int) == views(list@));
    r
}

fn clone_objects(list: &Vec<OCELObject>) -> (r: Vec<OCELObject>)
    ensures
        views(r@) == views(list@),
{
    let mut r: Vec<OCELObject> = Vec::new();
    let mut i: usize = 0;
    while i < list.len()
        invariant
            i <= list.len(),
            views(r@) == views(list@).take(i as int),
        decreases list.len() - i,
    {
        let item = list[i].clone();
        proof {
            assert(views(r@.push(item)) == views(r@).push(item@));
            assert(views(list@).take(i + 1) == views(list@).take(i as int).push(item@));
        }
        r.push(item);
        i += 1;
    }
    assert(views(list@).take(list.len() as int) == views(list@));
    r
}

impl Clone for OCEL {
    fn clone(&self) -> (r: Self)
        ensures
            r@ == self@,
    {
        OCEL {
            event_types: clone_types(&self.event_types),
            object_types: clone_types(&self.object_types),
            events: clone_events(&self.events),
            objects: clone_objects(&self.objects),
        }
    }
}

impl Clone for OCEL2DataFrames {
    fn clone(&self) -> (r: Self)
        ensures
            r.objects@ == self.objects@,
            r.events@ == self.events@,
            r.object_changes@ == self.object_changes@,
            r.o2o@ == self.o2o@,
            r.e2o@ == self.e2o@,
    {
        OCEL2DataFrames {
            objects: self.objects.clone(),
            events: self.events.clone(),
            object_changes: self.object_changes.clone(),
            o2o: self.o2o.clone(),
            e2o: self.e2o.clone(),
        }
    }
}

/// The cell that shows an attribute value.
pub open spec fn value_cell(v: OCELValueView) -> CellView {
    match v {
        OCELValueView::String(s) => CellView::String(s),
        OCELValueView::Time(t) => CellView::Datetime(t),
        OCELValueView::Integer(n) => CellView::Int(n),
        OCELValueView::Float(f) => CellView::Float(f),
        OCELValueView::Boolean(b) => CellView::Boolean(b),
        OCELValueView::Null => CellView::Null,
    }
}

/// Makes the cell that shows an attribute value.
pub fn ocel_attribute_val_to_cell(val: &OCELAttributeValue) -> (r: CellValue)
    ensures
        r@ == value_cell(val@),
{
    match val {
        OCELAttributeValue::String(s) => CellValue::String(s.clone()),
        OCELAttributeValue::Time(t) => CellValue::Datetime(*t),
        OCELAttributeValue::Integer(n) => CellValue::Int(*n),
        OCELAttributeValue::Float(f) => CellValue::Float(f.clone()),
        OCELAttributeValue::Boolean(b) => CellValue::Boolean(*b),
        OCELAttributeValue::Null => CellValue::Null,
    }
}

/// The names of the attributes that one type declares.
pub open spec fn attribute_names(attributes: Seq<OCELTypeAttributeView>) -> Seq<Seq<char>> {
    Seq::new(attributes.len(), |i: int| attributes[i].name)
}

/// The names of the attributes that the types declare, type after type.
pub open spec fn declared_names(types: Seq<OCELTypeView>) -> Seq<Seq<char>>
    decreases types.len(),
{
    if types.len() == 0 {
        Seq::empty()
    } else {
        declared_names(types.drop_last()) + attribute_names(types.last().attributes)
    }
}

/// The attributes that the types declare: each name once, in the order of
/// first declaration.
pub open spec fn declared_attributes(types: Seq<OCELTypeView>) -> Seq<Seq<char>> {
    distinct(declared_names(types))
}

/// Collects the attributes that the types declare.
pub fn collect_declared_attributes(types: &Vec<OCELType>) -> (names: Vec<String>)
    ensures
        names_view(names@) == declared_attributes(views(types@)),
{
    let mut names: Vec<String> = Vec::new();
    let mut i: usize = 0;
    assert(views(types@).take(0) == Seq::<OCELTypeView>::empty());
    assert(names_view(names@) == Seq::<Seq<char>>::empty());
    while i < types.len()
        invariant
            i <= types.len(),
            names_view(names@) == declared_attributes(views(types@).take(i as int)),
        decreases types.len() - i,
    {
        let attributes = &types[i].attributes;
        let ghost before = declared_names(views(types@).take(i as int));
        let ghost here = attribute_names(views(attributes@));
        let mut j: usize = 0;
        assert(before + here.take(0) == before);
        while j < attributes.len()
            invariant
                j <= attributes.len(),
                here == attribute_names(views(attributes@)),
                names_view(names@) == distinct(before + here.take(j as int)),
            decreases attributes.len() - j,
        {
            proof {
                let next = before + here.take(j + 1);
                assert(next.drop_last() == before + here.take(j as int));
                assert(next.last() == views(attributes@)[j as int].name);
            }
            add_name(&mut names, &attributes[j].name);
            j += 1;
        }
        proof {
            assert(here.take(attributes.len() as int) == here);
            assert(views(types@).take(i + 1).drop_last() == views(types@).take(i as int));
            assert(views(types@).take(i + 1).last() == views(types@)[i as int]);
        }
        i += 1;
    }
    assert(views(types@).take(types.len() as int) == views(types@));
    names
}

/// What the rows of a table stand for.
#[derive(Clone, Copy, Debug, PartialEq, Eq, Structural)]
pub enum RowKind {
    /// One row for each event.
    Event,
    /// One row for each reference of an event to an object.
    EventRelation,
    /// One row for each object.
    Object,
    /// One row for each reference of an object to an object.
    ObjectRelation,
    /// One row for each entry in the history of an object's attributes.
    ObjectChange,
}

/// What a column shows of a row.
#[derive(Debug)]
pub enum Field {
    EventId,
    EventType,
    EventTime,
    /// The event's attribute of the given name.
    EventAttribute(String),
    /// The object that the event refers to.
    EventObjectId,
    /// The type of the object that the event refers to.
    EventObjectType,
    EventQualifier,
    ObjectId,
    ObjectType,
    /// The initial value of the object's attribute of the given name.
    InitialAttribute(String),
    /// The object that the object refers to.
    RelatedObjectId,
    ObjectQualifier,
    /// The name of the attribute that the entry sets.
    ChangedField,
    ChangeTime,
    /// The value that the entry sets, where it sets the attribute of the
    /// given name.
    ChangedAttribute(String),
}

/// What a column shows of a row, with names as texts.
pub enum FieldView {
    EventId,
    EventType,
    EventTime,
    EventAttribute(Seq<char>),
    EventObjectId,
    EventObjectType,
    EventQualifier,
    ObjectId,
    ObjectType,
    InitialAttribute(Seq<char>),
    RelatedObjectId,
    ObjectQualifier,
    ChangedField,
    ChangeTime,
    ChangedAttribute(Seq<char>),
}

impl View for Field {
    type V = FieldView;

    open spec fn view(&self) -> FieldView {
        match self {
            Field::EventId => FieldView::EventId,
            Field::EventType => FieldView::EventType,
            Field::EventTime => FieldView::EventTime,
            Field::EventAttribute(n) => FieldView::EventAttribute(n@),
            Field::EventObjectId => FieldView::EventObjectId,
            Field::EventObjectType => FieldView::EventObjectType,
            Field::EventQualifier => FieldView::EventQualifier,
            Field::ObjectId => FieldView::ObjectId,
            Field::ObjectType => FieldView::ObjectType,
            Field::InitialAttribute(n) => FieldView::InitialAttribute(n@),
            Field::RelatedObjectId => FieldView::RelatedObjectId,
            Field::ObjectQualifier => FieldView::ObjectQualifier,
            Field::ChangedField => FieldView::ChangedField,
            Field::ChangeTime => FieldView::ChangeTime,
            Field::ChangedAttribute(n) => FieldView::ChangedAttribute(n@),
        }
    }
}

impl FieldView {
    /// The rows that the field can be shown of.
    pub open spec fn fits(self, kind: RowKind) -> bool {
        match self {
            FieldView::EventId | FieldView::EventType | FieldView::EventTime
            | FieldView::EventAttribute(_) => kind == RowKind::Event || kind
                == RowKind::EventRelation,
            FieldView::EventObjectId
            | FieldView::EventObjectType
            | FieldView::EventQualifier => kind == RowKind::EventRelation,
            FieldView::ObjectId | FieldView::ObjectType | FieldView::InitialAttribute(_) => kind
                == RowKind::Object || kind == RowKind::ObjectRelation || kind
                == RowKind::ObjectChange,
            FieldView::RelatedObjectId | FieldView::ObjectQualifier => kind
                == RowKind::ObjectRelation,
            FieldView::ChangedField | FieldView::ChangeTime | FieldView::ChangedAttribute(_) => kind
                == RowKind::ObjectChange,
        }
    }
}

/// The objects that an event refers to.
pub open spec fn event_relationships(e: OCELEventView) -> Seq<OCELRelationshipView> {
    match e.relationships {
        Some(r) => r,
        None => Seq::empty(),
    }
}

/// The objects that an object refers to.
pub open spec fn object_relationships(o: OCELObjectView) -> Seq<OCELRelationshipView> {
    match o.relationships {
        Some(r) => r,
        None => Seq::empty(),
    }
}

/// How many rows of the given kind each event or object gives.
pub open spec fn row_counts(ocel: OCELView, kind: RowKind) -> Seq<nat> {
    match kind {
        RowKind::Event => Seq::new(ocel.events.len(), |i: int| 1nat),
        RowKind::EventRelation => Seq::new(
            ocel.events.len(),
            |i: int| event_relationships(ocel.events[i]).len(),
        ),
        RowKind::Object => Seq::new(ocel.objects.len(), |i: int| 1nat),
        RowKind::ObjectRelation => Seq::new(
            ocel.objects.len(),
            |i: int| object_relationships(ocel.objects[i]).len(),
        ),
        RowKind::ObjectChange => Seq::new(
            ocel.objects.len(),
            |i: int| ocel.objects[i].attributes.len(),
        ),
    }
}

/// The rows of the given kind, in the order of the log.
pub open spec fn rows_of_kind(ocel: OCELView, kind: RowKind) -> Seq<(int, int)> {
    row_pairs(row_counts(ocel, kind))
}

/// Whether the log has what the row names.
pub open spec fn row_exists(ocel: OCELView, kind: RowKind, row: (int, int)) -> bool {
    &&& 0 <= row.0 < row_counts(ocel, kind).len()
    &&& 0 <= row.1 < row_counts(ocel, kind)[row.0]
}

/// The type of the object of the given id among the first `upto` objects:
/// that of the last one, where several share the id.
pub open spec fn object_type_of(objects: Seq<OCELObjectView>, id: Seq<char>, upto: int) -> Option<
    Seq<char>,
>
    decreases upto,
{
    if upto <= 0 || upto > objects.len() {
        None
    } else if objects[upto - 1].id == id {
        Some(objects[upto - 1].object_type)
    } else {
        object_type_of(objects, id, upto - 1)
    }
}

/// The value of the first attribute of the given name at or after `from`.
pub open spec fn event_attribute_value(
    attributes: Seq<OCELEventAttributeView>,
    name: Seq<char>,
    from: int,
) -> CellView
    decreases attributes.len() - from,
{
    if from < 0 || from >= attributes.len() {
        CellView::Null
    } else if attributes[from].name == name {
        value_cell(attributes[from].value)
    } else {
        event_attribute_value(attributes, name, from + 1)
    }
}

/// The value of the first entry at or after `from` that sets the attribute
/// of the given name at the epoch.
pub open spec fn initial_value(attributes: Seq<OCELObjectAttributeView>, name: Seq<char>, from: int)
    -> CellView
    decreases attributes.len() - from,
{
    if from < 0 || from >= attributes.len() {
        CellView::Null
    } else if attributes[from].name == name && attributes[from].time.is_epoch() {
        value_cell(attributes[from].value)
    } else {
        initial_value(attributes, name, from + 1)
    }
}

/// The cell that a column of the given field shows in the given row.
pub open spec fn field_value(ocel: OCELView, field: FieldView, row: (int, int)) -> CellView {
    let events = ocel.events;
    let objects = ocel.objects;
    match field {
        FieldView::EventId => CellView::String(events[row.0].id),
        FieldView::EventType => CellView::String(events[row.0].event_type),
        FieldView::EventTime => CellView::Datetime(events[row.0].time),
        FieldView::EventAttribute(name) => event_attribute_value(
            events[row.0].attributes,
            name,
            0,
        ),
        FieldView::EventObjectId => CellView::String(
            event_relationships(events[row.0])[row.1].object_id,
        ),
        FieldView::EventObjectType => match object_type_of(
            objects,
            event_relationships(events[row.0])[row.1].object_id,
            objects.len() as int,
        ) {
            Some(t) => CellView::String(t),
            None => CellView::Null,
        },
        FieldView::EventQualifier => CellView::String(
            event_relationships(events[row.0])[row.1].qualifier,
        ),
        FieldView::ObjectId => CellView::String(objects[row.0].id),
        FieldView::ObjectType => CellView::String(objects[row.0].object_type),
        FieldView::InitialAttribute(name) => initial_value(objects[row.0].attributes, name, 0),
        FieldView::RelatedObjectId => CellView::String(
            object_relationships(objects[row.0])[row.1].object_id,
        ),
        FieldView::ObjectQualifier => CellView::String(
            object_relationships(objects[row.0])[row.1].qualifier,
        ),
        FieldView::ChangedField => CellView::String(objects[row.0].attributes[row.1].name),
        FieldView::ChangeTime => CellView::Datetime(objects[row.0].attributes[row.1].time),
        FieldView::ChangedAttribute(name) => if objects[row.0].attributes[row.1].name == name {
            value_cell(objects[row.0].attributes[row.1].value)
        } else {
            CellView::Null
        },
    }
}

fn find_event_attribute(attributes: &Vec<OCELEventAttribute>, name: &String) -> (r: CellValue)
    ensures
        r@ == event_attribute_value(views(attributes@), name@, 0),
{
    let mut i: usize = 0;
    while i < attributes.len()
        invariant
            i <= attributes.len(),
            event_attribute_value(views(attributes@), name@, 0) == event_attribute_value(
                views(attributes@),
                name@,
                i as int,
            ),
        decreases attributes.len() - i,
    {
        if attributes[i].name == *name {
            return ocel_attribute_val_to_cell(&attributes[i].value);
        }
        i += 1;
    }
    CellValue::Null
}

fn find_initial_value(attributes: &Vec<OCELObjectAttribute>, name: &String) -> (r: CellValue)
    ensures
        r@ == initial_value(views(attributes@), name@, 0),
{
    let mut i: usize = 0;
    while i < attributes.len()
        invariant
            i <= attributes.len(),
            initial_value(views(attributes@), name@, 0) == initial_value(views(attributes@), name@, i as int),
        decreases attributes.len() - i,
    {
        if attributes[i].name == *name && attributes[i].time.at_epoch() {
            return ocel_attribute_val_to_cell(&attributes[i].value);
        }
        i += 1;
    }
    CellValue::Null
}

fn relationship_at<'a>(relationships: &'a Option<Vec<OCELRelationship>>, at: usize) -> (r:
    &'a OCELRelationship)
    requires
        relationships.is_some(),
        at < relationships.unwrap()@.len(),
    ensures
        *r == relationships.unwrap()@[at as int],
{
    match relationships {
        Some(list) => &list[at],
        None => vstd::pervasive::unreached(),
    }
}

/// Whether the index serves to build rows of the given kind: for the
/// references of events to objects it has to be the index of the objects of
/// the log.
pub(crate) open spec fn index_serves(index: ObjectIndex, ocel: OCELView, kind: RowKind) -> bool {
    kind == RowKind::EventRelation ==> index.indexes(ocel.objects, ocel.objects.len() as int)
}

/// Makes the cell that a column of the given field shows in the given row.
fn field_cell(
    ocel: &OCEL,
    index: &ObjectIndex,
    field: &Field,
    kind: RowKind,
    row: (usize, usize),
) -> (r: CellValue)
    requires
        field@.fits(kind),
        index_serves(*index, ocel@, kind),
        row_exists(ocel@, kind, (row.0 as int, row.1 as int)),
    ensures
        r@ == field_value(ocel@, field@, (row.0 as int, row.1 as int)),
{
    match field {
        Field::EventId => CellValue::String(ocel.events[row.0].id.clone()),
        Field::EventType => CellValue::String(ocel.events[row.0].event_type.clone()),
        Field::EventTime => CellValue::Datetime(ocel.events[row.0].time),
        Field::EventAttribute(name) => find_event_attribute(&ocel.events[row.0].attributes, name),
        Field::EventObjectId => {
            let relationship = relationship_at(&ocel.events[row.0].relationships, row.1);
            CellValue::String(relationship.object_id.clone())
        },
        Field::EventObjectType => {
            let relationship = relationship_at(&ocel.events[row.0].relationships, row.1);
            match index.type_of(&ocel.objects, &relationship.object_id) {
                Some(t) => CellValue::String(t),
                None => CellValue::Null,
            }
        },
        Field::EventQualifier => {
            let relationship = relationship_at(&ocel.events[row.0].relationships, row.1);
            CellValue::String(relationship.qualifier.clone())
        },
        Field::ObjectId => CellValue::String(ocel.objects[row.0].id.clone()),
        Field::ObjectType => CellValue::String(ocel.objects[row.0].object_type.clone()),
        Field::InitialAttribute(name) => find_initial_value(
            &ocel.objects[row.0].attributes,
            name,
        ),
        Field::RelatedObjectId => {
            let relationship = relationship_at(&ocel.objects[row.0].relationships, row.1);
            CellValue::String(relationship.object_id.clone())
        },
        Field::ObjectQualifier => {
            let relationship = relationship_at(&ocel.objects[row.0].relationships, row.1);
            CellValue::String(relationship.qualifier.clone())
        },
        Field::ChangedField => CellValue::String(
            ocel.objects[row.0].attributes[row.1].name.clone(),
        ),
        Field::ChangeTime => CellValue::Datetime(ocel.objects[row.0].attributes[row.1].time),
        Field::ChangedAttribute(name) => {
            let entry = &ocel.objects[row.0].attributes[row.1];
            if entry.name == *name {
                ocel_attribute_val_to_cell(&entry.value)
            } else {
                CellValue::Null
            }
        },
    }
}

fn relationship_count(relationships: &Option<Vec<OCELRelationship>>) -> (n: usize)
    ensures
        n == match *relationships {
            Some(r) => r@.len(),
            None => 0,
        },
{
    match relationships {
        Some(list) => list.len(),
        None => 0,
    }
}

/// Lists the rows of the given kind, in the order of the log.
fn list_rows_of_kind(ocel: &OCEL, kind: RowKind) -> (rows: Vec<(usize, usize)>)
    ensures
        pairs_view(rows@) == rows_of_kind(ocel@, kind),
{
    let mut lens: Vec<usize> = Vec::new();
    let n = match kind {
        RowKind::Event | RowKind::EventRelation => ocel.events.len(),
        _ => ocel.objects.len(),
    };
    let mut i: usize = 0;
    while i < n
        invariant
            i <= n,
            n == row_counts(ocel@, kind).len(),
            counts_of(lens@) == row_counts(ocel@, kind).take(i as int),
        decreases n - i,
    {
        let len = match kind {
            RowKind::Event => 1,
            RowKind::EventRelation => relationship_count(&ocel.events[i].relationships),
            RowKind::Object => 1,
            RowKind::ObjectRelation => relationship_count(&ocel.objects[i].relationships),
            RowKind::ObjectChange => ocel.objects[i].attributes.len(),
        };
        let ghost before = lens@;
        lens.push(len);
        proof {
            let counts = row_counts(ocel@, kind);
            assert(counts[i as int] == len as nat);
            assert(counts_of(lens@) == counts_of(before).push(len as nat));
            assert(counts.take(i + 1) == counts.take(i as int).push(counts[i as int]));
        }
        i += 1;
    }
    assert(row_counts(ocel@, kind).take(n as int) == row_counts(ocel@, kind));
    list_rows(&lens)
}

/// The instant by which a row is placed in a table that is sorted by time:
/// the time of the event, or of the entry in an attribute's history.
pub open spec fn row_time(ocel: OCELView, kind: RowKind, row: (int, int)) -> Timestamp {
    match kind {
        RowKind::Event | RowKind::EventRelation => ocel.events[row.0].time,
        RowKind::ObjectChange => ocel.objects[row.0].attributes[row.1].time,
        _ => Timestamp { secs: 0, nanos: 0 },
    }
}

/// The instants of a run of rows.
pub open spec fn row_times(ocel: OCELView, kind: RowKind, rows: Seq<(int, int)>) -> Seq<Timestamp> {
    Seq::new(rows.len(), |i: int| row_time(ocel, kind, rows[i]))
}

/// The rows at the given places, in the order of `order`.
pub open spec fn rows_in_order(rows: Seq<(int, int)>, order: Seq<usize>) -> Seq<(int, int)> {
    Seq::new(order.len(), |i: int| rows[order[i] as int])
}

/// Whether `sorted` holds the rows of `rows` by ascending time, rows of one
/// time in the order they have in `rows`.
pub open spec fn sorted_by_time(
    ocel: OCELView,
    kind: RowKind,
    rows: Seq<(int, int)>,
    sorted: Seq<(int, int)>,
) -> bool {
    exists|order: Seq<usize>| #[trigger]
        is_chronological(row_times(ocel, kind, rows), order) && sorted == rows_in_order(
            rows,
            order,
        )
}

/// Whether the log has what each of the rows names.
pub open spec fn rows_exist(ocel: OCELView, kind: RowKind, rows: Seq<(int, int)>) -> bool {
    forall|i: int| 0 <= i < rows.len() ==> row_exists(ocel, kind, #[trigger] rows[i])
}

/// The rows of a kind name what the log has.
pub proof fn lemma_rows_of_kind_exist(ocel: OCELView, kind: RowKind)
    ensures
        rows_exist(ocel, kind, rows_of_kind(ocel, kind)),
{
    let rows = rows_of_kind(ocel, kind);
    assert forall|i: int| 0 <= i < rows.len() implies row_exists(
        ocel,
        kind,
        #[trigger] rows[i],
    ) by {
        crate::rows::lemma_rows_in_range(row_counts(ocel, kind), i);
    }
}

fn time_of_row(ocel: &OCEL, kind: RowKind, row: (usize, usize)) -> (t: Timestamp)
    requires
        row_exists(ocel@, kind, (row.0 as int, row.1 as int)),
    ensures
        t == row_time(ocel@, kind, (row.0 as int, row.1 as int)),
{
    match kind {
        RowKind::Event | RowKind::EventRelation => ocel.events[row.0].time,
        RowKind::ObjectChange => ocel.objects[row.0].attributes[row.1].time,
        _ => Timestamp { secs: 0, nanos: 0 },
    }
}

/// Sorts rows by ascending time; rows of one time keep their order.
fn sort_rows_by_time(ocel: &OCEL, kind: RowKind, rows: &Vec<(usize, usize)>) -> (sorted: Vec<
    (usize, usize),
>)
    requires
        rows_exist(ocel@, kind, pairs_view(rows@)),
    ensures
        sorted_by_time(ocel@, kind, pairs_view(rows@), pairs_view(sorted@)),
        rows_exist(ocel@, kind, pairs_view(sorted@)),
        sorted@.len() == rows@.len(),
        crate::sorting::ascending(row_times(ocel@, kind, pairs_view(sorted@))),
{
    let ghost all = pairs_view(rows@);
    let mut times: Vec<Timestamp> = Vec::new();
    let mut i: usize = 0;
    while i < rows.len()
        invariant
            i <= rows.len(),
            all == pairs_view(rows@),
            rows_exist(ocel@, kind, all),
            times@ == row_times(ocel@, kind, all).take(i as int),
        decreases rows.len() - i,
    {
        assert(row_exists(ocel@, kind, all[i as int]));
        times.push(time_of_row(ocel, kind, rows[i]));
        assert(times@ == row_times(ocel@, kind, all).take(i + 1));
        i += 1;
    }
    assert(times@ == row_times(ocel@, kind, all));
    let order = chronological_order(&times);
    let mut sorted: Vec<(usize, usize)> = Vec::new();
    let mut j: usize = 0;
    while j < order.len()
        invariant
            j <= order.len(),
            all == pairs_view(rows@),
            is_chronological(row_times(ocel@, kind, all), order@),
            pairs_view(sorted@) == rows_in_order(all, order@).take(j as int),
        decreases order.len() - j,
    {
        let ghost before = sorted@;
        sorted.push(rows[order[j]]);
        assert(pairs_view(sorted@) == pairs_view(before).push(all[order@[j as int] as int]));
        assert(rows_in_order(all, order@).take(j + 1) == rows_in_order(all, order@).take(
            j as int,
        ).push(all[order@[j as int] as int]));
        j += 1;
    }
    proof {
        let result = rows_in_order(all, order@);
        assert(result.take(order.len() as int) == result);
        assert forall|k: int| 0 <= k < result.len() implies row_exists(
            ocel@,
            kind,
            #[trigger] result[k],
        ) by {
            assert(row_exists(ocel@, kind, all[order@[k] as int]));
        }
        crate::sorting::lemma_chronological_ascends(row_times(ocel@, kind, all), order@);
        assert(row_times(ocel@, kind, result) == crate::sorting::reordered_times(
            row_times(ocel@, kind, all),
            order@,
        ));
        assert(pairs_view(sorted@).len() == sorted@.len());
    }
    sorted
}

/// A column to build: its name, and what it shows of a row.
#[derive(Debug)]
pub struct ColumnPlan {
    pub name: String,
    pub field: Field,
}

/// A column to build, with names as texts.
pub struct ColumnPlanView {
    pub name: Seq<char>,
    pub field: FieldView,
}

impl View for ColumnPlan {
    type V = ColumnPlanView;

    open spec fn view(&self) -> ColumnPlanView {
        ColumnPlanView { name: self.name@, field: self.field@ }
    }
}

/// The columns that a run of plans describes.
pub open spec fn plans_view(plans: Seq<ColumnPlan>) -> Seq<ColumnPlanView> {
    Seq::new(plans.len(), |i: int| plans[i]@)
}

/// The column that a plan describes, over the given rows.
pub open spec fn column_of(ocel: OCELView, plan: ColumnPlanView, rows: Seq<(int, int)>) -> ColumnView {
    ColumnView {
        name: plan.name,
        values: Seq::new(rows.len(), |r: int| field_value(ocel, plan.field, rows[r])),
    }
}

/// The table that the plans describe, over the given rows.
pub open spec fn table_of(ocel: OCELView, plans: Seq<ColumnPlanView>, rows: Seq<(int, int)>)
    -> TableView {
    TableView {
        columns: Seq::new(plans.len(), |c: int| column_of(ocel, plans[c], rows)),
        height: rows.len(),
    }
}

/// Whether every plan shows a field that fits rows of the given kind.
pub open spec fn plans_fit(plans: Seq<ColumnPlanView>, kind: RowKind) -> bool {
    forall|c: int| 0 <= c < plans.len() ==> (#[trigger] plans[c]).field.fits(kind)
}

fn build_column(
    ocel: &OCEL,
    index: &ObjectIndex,
    plan: &ColumnPlan,
    kind: RowKind,
    rows: &Vec<(usize, usize)>,
) -> (column: Column)
    requires
        plan@.field.fits(kind),
        index_serves(*index, ocel@, kind),
        rows_exist(ocel@, kind, pairs_view(rows@)),
    ensures
        column@ == column_of(ocel@, plan@, pairs_view(rows@)),
{
    let ghost all = pairs_view(rows@);
    let ghost wanted = column_of(ocel@, plan@, all).values;
    let mut values: Vec<CellValue> = Vec::new();
    let mut i: usize = 0;
    while i < rows.len()
        invariant
            i <= rows.len(),
            all == pairs_view(rows@),
            wanted == column_of(ocel@, plan@, all).values,
            plan@.field.fits(kind),
            index_serves(*index, ocel@, kind),
            rows_exist(ocel@, kind, all),
            crate::table::cells_view(values@) == wanted.take(i as int),
        decreases rows.len() - i,
    {
        assert(row_exists(ocel@, kind, all[i as int]));
        let cell = field_cell(ocel, index, &plan.field, kind, rows[i]);
        proof {
            crate::table::lemma_cells_view_push(values@, cell);
            assert(wanted.take(i + 1) == wanted.take(i as int).push(cell@));
        }
        values.push(cell);
        i += 1;
    }
    assert(wanted.take(rows.len() as int) == wanted);
    Column { name: plan.name.clone(), values }
}

/// Builds the table that the plans describe, over the given rows.
fn build_table(
    ocel: &OCEL,
    index: &ObjectIndex,
    plans: &Vec<ColumnPlan>,
    kind: RowKind,
    rows: &Vec<(usize, usize)>,
) -> (table: Table)
    requires
        plans_fit(plans_view(plans@), kind),
        index_serves(*index, ocel@, kind),
        rows_exist(ocel@, kind, pairs_view(rows@)),
    ensures
        table@ == table_of(ocel@, plans_view(plans@), pairs_view(rows@)),
{
    let ghost all = pairs_view(rows@);
    let ghost wanted = table_of(ocel@, plans_view(plans@), all).columns;
    let mut columns: Vec<Column> = Vec::new();
    let mut c: usize = 0;
    while c < plans.len()
        invariant
            c <= plans.len(),
            all == pairs_view(rows@),
            wanted == table_of(ocel@, plans_view(plans@), all).columns,
            plans_fit(plans_view(plans@), kind),
            index_serves(*index, ocel@, kind),
            rows_exist(ocel@, kind, all),
            crate::table::columns_view(columns@) == wanted.take(c as int),
        decreases plans.len() - c,
    {
        assert(plans_view(plans@)[c as int].field.fits(kind));
        let column = build_column(ocel, index, &plans[c], kind, rows);
        proof {
            crate::table::lemma_columns_view_push(columns@, column);
            assert(wanted.take(c + 1) == wanted.take(c as int).push(column@));
        }
        columns.push(column);
        c += 1;
    }
    assert(wanted.take(plans.len() as int) == wanted);
    Table { columns, height: rows.len() }
}

/// Whether one of the entries sets the attribute of the given name at the
/// epoch.
pub open spec fn sets_initially(attributes: Seq<OCELObjectAttributeView>, name: Seq<char>) -> bool {
    exists|a: int|
        0 <= a < attributes.len() && (#[trigger] attributes[a]).name == name
            && attributes[a].time.is_epoch()
}

/// Whether one of the objects has an initial value for the attribute of the
/// given name.
pub open spec fn has_initial_value(objects: Seq<OCELObjectView>, name: Seq<char>) -> bool {
    exists|o: int|
        0 <= o < objects.len() && sets_initially((#[trigger] objects[o]).attributes, name)
}

/// The declared object attributes for which some object has an initial
/// value.
pub open spec fn initial_attributes(ocel: OCELView) -> Seq<Seq<char>> {
    declared_attributes(ocel.object_types).filter(
        |name: Seq<char>| has_initial_value(ocel.objects, name),
    )
}

fn entries_set_initially(attributes: &Vec<OCELObjectAttribute>, name: &String) -> (r: bool)
    ensures
        r == sets_initially(views(attributes@), name@),
{
    let mut a: usize = 0;
    while a < attributes.len()
        invariant
            a <= attributes.len(),
            forall|k: int|
                0 <= k < a ==> !((#[trigger] views(attributes@)[k]).name == name@
                    && views(attributes@)[k].time.is_epoch()),
        decreases attributes.len() - a,
    {
        if attributes[a].name == *name && attributes[a].time.at_epoch() {
            assert(views(attributes@)[a as int].name == name@);
            return true;
        }
        a += 1;
    }
    false
}

fn some_object_has_initial_value(objects: &Vec<OCELObject>, name: &String) -> (r: bool)
    ensures
        r == has_initial_value(views(objects@), name@),
{
    let mut o: usize = 0;
    while o < objects.len()
        invariant
            o <= objects.len(),
            forall|k: int|
                0 <= k < o ==> !sets_initially((#[trigger] views(objects@)[k]).attributes, name@),
        decreases objects.len() - o,
    {
        assert(views(objects@)[o as int].attributes == views(objects@[o as int].attributes@));
        if entries_set_initially(&objects[o].attributes, name) {
            return true;
        }
        o += 1;
    }
    false
}

/// Collects the declared object attributes for which some object has an
/// initial value.
pub fn collect_initial_attributes(ocel: &OCEL) -> (names: Vec<String>)
    ensures
        names_view(names@) == initial_attributes(ocel@),
{
    let declared = collect_declared_attributes(&ocel.object_types);
    let ghost all = declared_attributes(ocel@.object_types);
    let ghost keep = |name: Seq<char>| has_initial_value(ocel@.objects, name);
    let mut names: Vec<String> = Vec::new();
    let mut i: usize = 0;
    assert(all.take(0) == Seq::<Seq<char>>::empty());
    assert(names_view(names@) == Seq::<Seq<char>>::empty());
    while i < declared.len()
        invariant
            i <= declared.len(),
            names_view(declared@) == all,
            keep == |name: Seq<char>| has_initial_value(ocel@.objects, name),
            names_view(names@) == all.take(i as int).filter(keep),
        decreases declared.len() - i,
    {
        proof {
            assert(all.take(i + 1).drop_last() == all.take(i as int));
            assert(all.take(i + 1).last() == declared@[i as int]@);
            reveal(Seq::filter);
        }
        if some_object_has_initial_value(&ocel.objects, &declared[i]) {
            proof {
                crate::text::lemma_names_view_push(names@, declared@[i as int]);
            }
            names.push(declared[i].clone());
        }
        i += 1;
    }
    assert(all.take(declared.len() as int) == all);
    names
}

/// What the column of an attribute shows, by the kind of the table's rows.
pub open spec fn attribute_field(kind: RowKind, name: Seq<char>) -> FieldView {
    match kind {
        RowKind::Event | RowKind::EventRelation => FieldView::EventAttribute(name),
        RowKind::Object | RowKind::ObjectRelation => FieldView::InitialAttribute(name),
        RowKind::ObjectChange => FieldView::ChangedAttribute(name),
    }
}

/// One column for each of the attributes, under the attribute's name.
pub open spec fn attribute_plans(kind: RowKind, names: Seq<Seq<char>>) -> Seq<ColumnPlanView> {
    Seq::new(
        names.len(),
        |i: int| ColumnPlanView { name: names[i], field: attribute_field(kind, names[i]) },
    )
}

/// The attributes that have a column in the table of the given kind.
pub open spec fn table_attributes(ocel: OCELView, kind: RowKind) -> Seq<Seq<char>> {
    match kind {
        RowKind::Event => declared_attributes(ocel.event_types),
        RowKind::Object => initial_attributes(ocel),
        RowKind::ObjectChange => declared_attributes(ocel.object_types),
        _ => Seq::empty(),
    }
}

/// The columns that every table of the given kind has, after those of the
/// attributes.
pub open spec fn fixed_plans(kind: RowKind) -> Seq<ColumnPlanView> {
    match kind {
        RowKind::Event => seq![
            ColumnPlanView { name: OCEL_EVENT_ID_KEY@, field: FieldView::EventId },
            ColumnPlanView { name: OCEL_EVENT_TYPE_KEY@, field: FieldView::EventType },
            ColumnPlanView { name: OCEL_EVENT_TIMESTAMP_KEY@, field: FieldView::EventTime },
        ],
        RowKind::EventRelation => seq![
            ColumnPlanView { name: OCEL_EVENT_ID_KEY@, field: FieldView::EventId },
            ColumnPlanView { name: OCEL_EVENT_TYPE_KEY@, field: FieldView::EventType },
            ColumnPlanView { name: OCEL_EVENT_TIMESTAMP_KEY@, field: FieldView::EventTime },
            ColumnPlanView { name: OCEL_OBJECT_ID_KEY@, field: FieldView::EventObjectId },
            ColumnPlanView { name: OCEL_OBJECT_TYPE_KEY@, field: FieldView::EventObjectType },
            ColumnPlanView { name: OCEL_QUALIFIER_KEY@, field: FieldView::EventQualifier },
        ],
        RowKind::Object => seq![
            ColumnPlanView { name: OCEL_OBJECT_ID_KEY@, field: FieldView::ObjectId },
            ColumnPlanView { name: OCEL_OBJECT_TYPE_KEY@, field: FieldView::ObjectType },
        ],
        RowKind::ObjectRelation => seq![
            ColumnPlanView { name: OCEL_OBJECT_ID_KEY@, field: FieldView::ObjectId },
            ColumnPlanView { name: OCEL_OBJECT_ID_2_KEY@, field: FieldView::RelatedObjectId },
            ColumnPlanView { name: OCEL_QUALIFIER_KEY@, field: FieldView::ObjectQualifier },
        ],
        RowKind::ObjectChange => seq![
            ColumnPlanView { name: OCEL_OBJECT_ID_KEY@, field: FieldView::ObjectId },
            ColumnPlanView { name: OCEL_OBJECT_TYPE_KEY@, field: FieldView::ObjectType },
            ColumnPlanView { name: OCEL_CHANGED_FIELD_KEY@, field: FieldView::ChangedField },
            ColumnPlanView { name: OCEL_EVENT_TIMESTAMP_KEY@, field: FieldView::ChangeTime },
        ],
    }
}

/// The columns of the table of the given kind: those of its attributes, then
/// the fixed ones.
pub open spec fn plans_of_kind(ocel: OCELView, kind: RowKind) -> Seq<ColumnPlanView> {
    attribute_plans(kind, table_attributes(ocel, kind)) + fixed_plans(kind)
}

/// Whether the rows of a table of the given kind are sorted by time.
pub open spec fn sorted_kind(kind: RowKind) -> bool {
    kind == RowKind::Event || kind == RowKind::EventRelation || kind == RowKind::ObjectChange
}

/// Whether `rows` are the rows of the table of the given kind, in the order
/// the table has them: sorted by time for events, for their references to
/// objects and for the changes of objects, else in the order of the log.
pub open spec fn table_rows(ocel: OCELView, kind: RowKind, rows: Seq<(int, int)>) -> bool {
    if sorted_kind(kind) {
        sorted_by_time(ocel, kind, rows_of_kind(ocel, kind), rows)
    } else {
        rows == rows_of_kind(ocel, kind)
    }
}

/// Whether `table` is the table of the given kind for the log.
pub open spec fn is_table_of_kind(ocel: OCELView, kind: RowKind, table: TableView) -> bool {
    exists|rows: Seq<(int, int)>| #[trigger]
        table_rows(ocel, kind, rows) && table == table_of(ocel, plans_of_kind(ocel, kind), rows)
}

/// Whether the cells are instants that never go back in time.
pub open spec fn cells_ascend(cells: Seq<CellView>) -> bool {
    forall|i: int, j: int|
        0 <= i < j < cells.len() ==> (#[trigger] cells[i]) is Datetime && (
        #[trigger] cells[j]) is Datetime && cells[i]->Datetime_0.at_or_before(
            cells[j]->Datetime_0,
        )
}

fn plan_named(name: &str, field: Field) -> (plan: ColumnPlan)
    ensures
        plan@ == (ColumnPlanView { name: name@, field: field@ }),
{
    ColumnPlan { name: name.to_owned(), field }
}

fn attribute_plan(kind: RowKind, name: &String) -> (plan: ColumnPlan)
    ensures
        plan@ == (ColumnPlanView { name: name@, field: attribute_field(kind, name@) }),
{
    let field = match kind {
        RowKind::Event | RowKind::EventRelation => Field::EventAttribute(name.clone()),
        RowKind::Object | RowKind::ObjectRelation => Field::InitialAttribute(name.clone()),
        RowKind::ObjectChange => Field::ChangedAttribute(name.clone()),
    };
    ColumnPlan { name: name.clone(), field }
}

fn push_plan(plans: &mut Vec<ColumnPlan>, plan: ColumnPlan)
    ensures
        plans_view(final(plans)@) == plans_view(old(plans)@).push(plan@),
{
    assert(plans_view(plans@.push(plan)) == plans_view(plans@).push(plan@));
    plans.push(plan);
}

/// Lists the columns of the table of the given kind.
fn plan_columns(ocel: &OCEL, kind: RowKind) -> (plans: Vec<ColumnPlan>)
    ensures
        plans_view(plans@) == plans_of_kind(ocel@, kind),
        plans_fit(plans_view(plans@), kind),
{
    let names = match kind {
        RowKind::Event => collect_declared_attributes(&ocel.event_types),
        RowKind::Object => collect_initial_attributes(ocel),
        RowKind::ObjectChange => collect_declared_attributes(&ocel.object_types),
        _ => Vec::new(),
    };
    assert(names_view(names@) == table_attributes(ocel@, kind));
    let ghost wanted = attribute_plans(kind, names_view(names@));
    let mut plans: Vec<ColumnPlan> = Vec::new();
    let mut i: usize = 0;
    assert(plans_view(plans@) == wanted.take(0));
    while i < names.len()
        invariant
            i <= names.len(),
            wanted == attribute_plans(kind, names_view(names@)),
            plans_view(plans@) == wanted.take(i as int),
        decreases names.len() - i,
    {
        let plan = attribute_plan(kind, &names[i]);
        assert(wanted.take(i + 1) == wanted.take(i as int).push(plan@));
        push_plan(&mut plans, plan);
        i += 1;
    }
    assert(wanted.take(names.len() as int) == wanted);
    match kind {
        RowKind::Event => {
            push_plan(&mut plans, plan_named(OCEL_EVENT_ID_KEY, Field::EventId));
            push_plan(&mut plans, plan_named(OCEL_EVENT_TYPE_KEY, Field::EventType));
            push_plan(&mut plans, plan_named(OCEL_EVENT_TIMESTAMP_KEY, Field::EventTime));
        },
        RowKind::EventRelation => {
            push_plan(&mut plans, plan_named(OCEL_EVENT_ID_KEY, Field::EventId));
            push_plan(&mut plans, plan_named(OCEL_EVENT_TYPE_KEY, Field::EventType));
            push_plan(&mut plans, plan_named(OCEL_EVENT_TIMESTAMP_KEY, Field::EventTime));
            push_plan(&mut plans, plan_named(OCEL_OBJECT_ID_KEY, Field::EventObjectId));
            push_plan(&mut plans, plan_named(OCEL_OBJECT_TYPE_KEY, Field::EventObjectType));
            push_plan(&mut plans, plan_named(OCEL_QUALIFIER_KEY, Field::EventQualifier));
        },
        RowKind::Object => {
            push_plan(&mut plans, plan_named(OCEL_OBJECT_ID_KEY, Field::ObjectId));
            push_plan(&mut plans, plan_named(OCEL_OBJECT_TYPE_KEY, Field::ObjectType));
        },
        RowKind::ObjectRelation => {
            push_plan(&mut plans, plan_named(OCEL_OBJECT_ID_KEY, Field::ObjectId));
            push_plan(&mut plans, plan_named(OCEL_OBJECT_ID_2_KEY, Field::RelatedObjectId));
            push_plan(&mut plans, plan_named(OCEL_QUALIFIER_KEY, Field::ObjectQualifier));
        },
        RowKind::ObjectChange => {
            push_plan(&mut plans, plan_named(OCEL_OBJECT_ID_KEY, Field::ObjectId));
            push_plan(&mut plans, plan_named(OCEL_OBJECT_TYPE_KEY, Field::ObjectType));
            push_plan(&mut plans, plan_named(OCEL_CHANGED_FIELD_KEY, Field::ChangedField));
            push_plan(&mut plans, plan_named(OCEL_EVENT_TIMESTAMP_KEY, Field::ChangeTime));
        },
    }
    assert(plans_view(plans@) == plans_of_kind(ocel@, kind));
    plans
}

/// The place of the column of instants by which a sorted table is sorted.
pub open spec fn time_column(ocel: OCELView, kind: RowKind) -> int {
    match kind {
        RowKind::EventRelation => 2,
        _ => plans_of_kind(ocel, kind).len() - 1,
    }
}

/// A run of ones adds up to its length.
pub proof fn lemma_total_of_ones(n: nat)
    ensures
        total(Seq::new(n, |i: int| 1nat)) == n,
    decreases n,
{
    if n > 0 {
        lemma_total_of_ones((n - 1) as nat);
        assert(Seq::new(n, |i: int| 1nat).drop_last() == Seq::new((n - 1) as nat, |i: int| 1nat));
    }
}

/// Builds the table of the given kind: one row for each item of that kind,
/// sorted by time where the kind asks for it.
pub fn table_of_kind(ocel: &OCEL, kind: RowKind) -> (table: Table)
    ensures
        is_table_of_kind(ocel@, kind, table@),
        table@.height == total(row_counts(ocel@, kind)),
        table@.columns.len() == plans_of_kind(ocel@, kind).len(),
        table@.rectangular(),
        sorted_kind(kind) ==> cells_ascend(table@.columns[time_column(ocel@, kind)].values),
{
    let plans = plan_columns(ocel, kind);
    let listed = list_rows_of_kind(ocel, kind);
    proof {
        lemma_rows_of_kind_exist(ocel@, kind);
        crate::rows::lemma_row_count(row_counts(ocel@, kind));
        assert(listed@.len() == pairs_view(listed@).len());
    }
    let sorted = match kind {
        RowKind::Event | RowKind::EventRelation | RowKind::ObjectChange => true,
        _ => false,
    };
    let rows = if sorted {
        sort_rows_by_time(ocel, kind, &listed)
    } else {
        listed
    };
    let index = match kind {
        RowKind::EventRelation => ObjectIndex::new(&ocel.objects),
        _ => ObjectIndex::empty(),
    };
    let table = build_table(ocel, &index, &plans, kind, &rows);
    proof {
        let all = pairs_view(rows@);
        assert(table_rows(ocel@, kind, all));
        if sorted_kind(kind) {
            let at = time_column(ocel@, kind);
            let shown = table@.columns[at].values;
            let times = row_times(ocel@, kind, all);
            assert(plans_of_kind(ocel@, kind)[at].field == (match kind {
                RowKind::ObjectChange => FieldView::ChangeTime,
                _ => FieldView::EventTime,
            }));
            assert forall|i: int, j: int| 0 <= i < j < shown.len() implies (
            #[trigger] shown[i]) is Datetime && (#[trigger] shown[j]) is Datetime
                && shown[i]->Datetime_0.at_or_before(shown[j]->Datetime_0) by {
                assert(shown[i] == CellView::Datetime(times[i]));
                assert(shown[j] == CellView::Datetime(times[j]));
                assert(times[i].at_or_before(times[j]));
            }
        }
    }
    table
}

/// Builds the five tables of an object-centric event log.
///
/// `objects` has one row for each object, with the initial values of the
/// declared attributes; `events` one for each event, with the declared
/// attributes; `object_changes` one for each entry in the history of an
/// object's attributes; `o2o` one for each reference of an object to an
/// object; `e2o` one for each reference of an event to an object. The tables
/// `events`, `e2o` and `object_changes` are sorted by ascending time.
pub fn ocel2_to_df(ocel: &OCEL) -> (r: OCEL2DataFrames)
    ensures
        is_table_of_kind(ocel@, RowKind::Object, r.objects@),
        is_table_of_kind(ocel@, RowKind::Event, r.events@),
        is_table_of_kind(ocel@, RowKind::ObjectChange, r.object_changes@),
        is_table_of_kind(ocel@, RowKind::ObjectRelation, r.o2o@),
        is_table_of_kind(ocel@, RowKind::EventRelation, r.e2o@),
        r.objects@.height == ocel.objects@.len(),
        r.events@.height == ocel.events@.len(),
        r.object_changes@.height == total(row_counts(ocel@, RowKind::ObjectChange)),
        r.o2o@.height == total(row_counts(ocel@, RowKind::ObjectRelation)),
        r.e2o@.height == total(row_counts(ocel@, RowKind::EventRelation)),
        r.objects@.rectangular(),
        r.events@.rectangular(),
        r.object_changes@.rectangular(),
        r.o2o@.rectangular(),
        r.e2o@.rectangular(),
        cells_ascend(r.events@.columns[time_column(ocel@, RowKind::Event)].values),
        cells_ascend(r.e2o@.columns[time_column(ocel@, RowKind::EventRelation)].values),
        cells_ascend(
            r.object_changes@.columns[time_column(ocel@, RowKind::ObjectChange)].values,
        ),
{
    proof {
        lemma_total_of_ones(ocel.objects@.len());
        lemma_total_of_ones(ocel.events@.len());
    }
    let objects = table_of_kind(ocel, RowKind::Object);
    let e2o = table_of_kind(ocel, RowKind::EventRelation);
    let o2o = table_of_kind(ocel, RowKind::ObjectRelation);
    let object_changes = table_of_kind(ocel, RowKind::ObjectChange);
    let events = table_of_kind(ocel, RowKind::Event);
    OCEL2DataFrames { objects, events, object_changes, o2o, e2o }
}

/// The five tables under the names by which they are handed out: `events`,
/// `objects`, `o2o`, `relations` (the references of events to objects) and
/// `object_changes`.
pub fn ocel_dfs_to_py(ocel_dfs: OCEL2DataFrames) -> (r: Vec<(String, Table)>)
    ensures
        r@.len() == 5,
        r@[0].0@ == "events"@ && r@[0].1 == ocel_dfs.events,
        r@[1].0@ == "objects"@ && r@[1].1 == ocel_dfs.objects,
        r@[2].0@ == "o2o"@ && r@[2].1 == ocel_dfs.o2o,
        r@[3].0@ == "relations"@ && r@[3].1 == ocel_dfs.e2o,
        r@[4].0@ == "object_changes"@ && r@[4].1 == ocel_dfs.object_changes,
{
    let mut r: Vec<(String, Table)> = Vec::new();
    r.push(("events".to_owned(), ocel_dfs.events));
    r.push(("objects".to_owned(), ocel_dfs.objects));
    r.push(("o2o".to_owned(), ocel_dfs.o2o));
    r.push(("relations".to_owned(), ocel_dfs.e2o));
    r.push(("object_changes".to_owned(), ocel_dfs.object_changes));
    r
}

/// Whether an entry in the history of some object sets an attribute that no
/// object type declares.
pub open spec fn sets_undeclared_attribute(ocel: OCELView) -> bool {
    exists|o: int|
        0 <= o < ocel.objects.len() && names_undeclared(
            declared_attributes(ocel.object_types),
            (#[trigger] ocel.objects[o]).attributes,
        )
}

/// Whether one of the entries sets an attribute that is not among
/// `declared`.
pub open spec fn names_undeclared(declared: Seq<Seq<char>>, attributes: Seq<OCELObjectAttributeView>)
    -> bool {
    exists|a: int|
        0 <= a < attributes.len() && !declared.contains((#[trigger] attributes[a]).name)
}

/// Tells whether the objects have attributes beyond those that the object
/// types declare. Such a log does not conform; its tables are built all the
/// same, without columns for the attributes that are not declared.
pub fn has_undeclared_object_attributes(ocel: &OCEL) -> (r: bool)
    ensures
        r == sets_undeclared_attribute(ocel@),
{
    let declared = collect_declared_attributes(&ocel.object_types);
    let mut o: usize = 0;
    while o < ocel.objects.len()
        invariant
            o <= ocel.objects.len(),
            names_view(declared@) == declared_attributes(ocel@.object_types),
            forall|k: int|
                0 <= k < o ==> !names_undeclared(
                    names_view(declared@),
                    (#[trigger] ocel@.objects[k]).attributes,
                ),
        decreases ocel.objects.len() - o,
    {
        let attributes = &ocel.objects[o].attributes;
        let mut a: usize = 0;
        while a < attributes.len()
            invariant
                a <= attributes.len(),
                o < ocel.objects.len(),
                *attributes == ocel.objects@[o as int].attributes,
                names_view(declared@) == declared_attributes(ocel@.object_types),
                forall|k: int|
                    0 <= k < a ==> names_view(declared@).contains(
                        (#[trigger] attributes@[k]).name@,
                    ),
            decreases attributes.len() - a,
        {
            if !crate::text::has_name(&declared, &attributes[a].name) {
                assert(!names_view(declared@).contains(attributes@[a as int].name@));
                assert(ocel@.objects[o as int].attributes[a as int].name
                    == attributes@[a as int].name@);
                assert(names_undeclared(
                    declared_attributes(ocel@.object_types),
                    ocel@.objects[o as int].attributes,
                ));
                return true;
            }
            a += 1;
        }
        proof {
            let entries = ocel@.objects[o as int].attributes;
            assert forall|k: int| 0 <= k < entries.len() implies names_view(declared@).contains(
                (#[trigger] entries[k]).name,
            ) by {
                assert(entries[k].name == attributes@[k].name@);
            }
        }
        o += 1;
    }
    false
}

/// Whether some event refers to an object that the log does not hold.
pub open spec fn refers_to_unknown_object(ocel: OCELView) -> bool {
    exists|r: int|
        0 <= r < rows_of_kind(ocel, RowKind::EventRelation).len() && field_value(
            ocel,
            FieldView::EventObjectType,
            #[trigger] rows_of_kind(ocel, RowKind::EventRelation)[r],
        ) is Null
}

/// Tells whether some event refers to an object that the log does not hold.
/// The row of such a reference has no object type.
pub fn has_unknown_object_references(ocel: &OCEL) -> (r: bool)
    ensures
        r == refers_to_unknown_object(ocel@),
{
    let rows = list_rows_of_kind(ocel, RowKind::EventRelation);
    let index = ObjectIndex::new(&ocel.objects);
    let ghost all = rows_of_kind(ocel@, RowKind::EventRelation);
    proof {
        lemma_rows_of_kind_exist(ocel@, RowKind::EventRelation);
        assert(pairs_view(rows@).len() == rows@.len());
    }
    let mut i: usize = 0;
    while i < rows.len()
        invariant
            i <= rows.len(),
            all == rows_of_kind(ocel@, RowKind::EventRelation),
            pairs_view(rows@) == all,
            index_serves(index, ocel@, RowKind::EventRelation),
            rows_exist(ocel@, RowKind::EventRelation, all),
            forall|k: int|
                0 <= k < i ==> !(field_value(ocel@, FieldView::EventObjectType, #[trigger] all[k])
                    is Null),
        decreases rows.len() - i,
    {
        assert(row_exists(ocel@, RowKind::EventRelation, all[i as int]));
        let cell = field_cell(
            ocel,
            &index,
            &Field::EventObjectType,
            RowKind::EventRelation,
            rows[i],
        );
        match cell {
            CellValue::Null => {
                return true;
            },
            _ => {},
        }
        i += 1;
    }
    false
}

/// Whether the object that a row refers to is not among the objects of the
/// log.
pub open spec fn refers_to_unknown(ocel: OCELView, row: (int, int)) -> bool {
    field_value(ocel, FieldView::EventObjectType, row) is Null
}

/// The references of events to objects that the log does not hold, in the
/// order of the log.
pub open spec fn unknown_rows(ocel: OCELView) -> Seq<(int, int)> {
    rows_of_kind(ocel, RowKind::EventRelation).filter(
        |row: (int, int)| refers_to_unknown(ocel, row),
    )
}

/// The references of events to objects that the log does not hold, each as
/// the id of the event and the id that no object has.
pub open spec fn unknown_references(ocel: OCELView) -> Seq<(Seq<char>, Seq<char>)> {
    Seq::new(
        unknown_rows(ocel).len(),
        |i: int|
            (
                ocel.events[unknown_rows(ocel)[i].0].id,
                event_relationships(ocel.events[unknown_rows(ocel)[i].0])[unknown_rows(
                    ocel,
                )[i].1].object_id,
            ),
    )
}

/// What a run of pairs of strings holds.
pub open spec fn pairs_of_names(pairs: Seq<(String, String)>) -> Seq<(Seq<char>, Seq<char>)> {
    Seq::new(pairs.len(), |i: int| (pairs[i].0@, pairs[i].1@))
}

/// Lists the references of events to objects that the log does not hold,
/// each as the id of the event and the id that no object has. The row of
/// such a reference has no object type in the table.
pub fn list_unknown_object_references(ocel: &OCEL) -> (r: Vec<(String, String)>)
    ensures
        pairs_of_names(r@) == unknown_references(ocel@),
{
    let rows = list_rows_of_kind(ocel, RowKind::EventRelation);
    let index = ObjectIndex::new(&ocel.objects);
    let ghost all = rows_of_kind(ocel@, RowKind::EventRelation);
    let ghost unknown = |row: (int, int)| refers_to_unknown(ocel@, row);
    proof {
        lemma_rows_of_kind_exist(ocel@, RowKind::EventRelation);
        assert(pairs_view(rows@).len() == rows@.len());
        reveal(Seq::filter);
        assert(all.take(0) == Seq::<(int, int)>::empty());
    }
    let mut found: Vec<(usize, usize)> = Vec::new();
    let mut names: Vec<(String, String)> = Vec::new();
    let mut i: usize = 0;
    assert(pairs_view(found@) == Seq::<(int, int)>::empty());
    while i < rows.len()
        invariant
            i <= rows.len(),
            all == rows_of_kind(ocel@, RowKind::EventRelation),
            pairs_view(rows@) == all,
            unknown == |row: (int, int)| refers_to_unknown(ocel@, row),
            index_serves(index, ocel@, RowKind::EventRelation),
            rows_exist(ocel@, RowKind::EventRelation, all),
            pairs_view(found@) == all.take(i as int).filter(unknown),
            names@.len() == found@.len(),
            forall|k: int|
                0 <= k < found@.len() ==> (#[trigger] names@[k]).0@ == ocel@.events[found@[k].0 as int].id
                    && names@[k].1@ == event_relationships(
                    ocel@.events[found@[k].0 as int],
                )[found@[k].1 as int].object_id,
        decreases rows.len() - i,
    {
        let row = rows[i];
        proof {
            reveal(Seq::filter);
            assert(all.take(i + 1).drop_last() == all.take(i as int));
            assert(all.take(i + 1).last() == (row.0 as int, row.1 as int));
            assert(row_exists(ocel@, RowKind::EventRelation, all[i as int]));
        }
        let cell = field_cell(ocel, &index, &Field::EventObjectType, RowKind::EventRelation, row);
        let missing = match cell {
            CellValue::Null => true,
            _ => false,
        };
        if missing {
            let relationship = relationship_at(&ocel.events[row.0].relationships, row.1);
            let ghost before = found@;
            found.push(row);
            names.push((ocel.events[row.0].id.clone(), relationship.object_id.clone()));
            assert(pairs_view(found@) == pairs_view(before).push((row.0 as int, row.1 as int)));
        }
        i += 1;
    }
    proof {
        assert(all.take(rows.len() as int) == all);
        assert(pairs_view(found@) == unknown_rows(ocel@));
        assert(pairs_of_names(names@) =~= unknown_references(ocel@));
    }
    names
}

} // verus!
