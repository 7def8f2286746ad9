//! The model of an event log: attributes, events, traces and the log itself.

use crate::float_literal::FloatLiteral;
use crate::time::Timestamp;
use vstd::prelude::*;

verus! {

/// The value of an attribute, as the XES standard has it.
#[derive(Debug)]
pub enum AttributeValue {
    String(String),
    Date(Timestamp),
    Int(i64),
    Float(FloatLiteral),
    Boolean(bool),
    /// A 128-bit identifier.
    ID(u128),
    /// Attributes in a fixed order; keys may repeat.
    List(Vec<Attribute>),
    /// Attributes by key.
    Container(Attributes),
    /// No value: the mark of an attribute whose type is not known.
    Null,
}

/// A key with its value, and the attributes that are attached to the
/// attribute itself.
#[derive(Debug)]
pub struct Attribute {
    pub key: String,
    pub value: AttributeValue,
    pub own_attributes: Option<Attributes>,
}

/// Attributes by key: no two of them share a key. They are kept in the order
/// in which their keys first came.
#[derive(Debug)]
pub struct Attributes {
    items: Vec<Attribute>,
}

/// What an attribute value holds.
pub enum ValueView {
    String(Seq<char>),
    Date(Timestamp),
    Int(i64),
    Float(Seq<char>),
    Boolean(bool),
    ID(u128),
    List(Seq<AttributeView>),
    Container(Seq<AttributeView>),
    Null,
}

/// What an attribute holds.
pub struct AttributeView {
    pub key: Seq<char>,
    pub value: ValueView,
    pub own_attributes: Option<Seq<AttributeView>>,
}

/// What an attribute value holds.
pub open spec fn value_view(v: AttributeValue) -> ValueView
    decreases v,
{
    match v {
        AttributeValue::String(s) => ValueView::String(s@),
        AttributeValue::Date(t) => ValueView::Date(t),
        AttributeValue::Int(n) => ValueView::Int(n),
        AttributeValue::Float(f) => ValueView::Float(f@),
        AttributeValue::Boolean(b) => ValueView::Boolean(b),
        AttributeValue::ID(id) => ValueView::ID(id),
        AttributeValue::List(l) => ValueView::List(attributes_view(l@)),
        AttributeValue::Container(c) => ValueView::Container(c.view()),
        AttributeValue::Null => ValueView::Null,
    }
}

/// What an attribute holds.
pub open spec fn attribute_view(a: Attribute) -> AttributeView
    decreases a,
{
    AttributeView {
        key: a.key@,
        value: value_view(a.value),
        own_attributes: match a.own_attributes {
            Some(own) => Some(own.view()),
            None => None,
        },
    }
}

/// What a run of attributes holds.
pub open spec fn attributes_view(s: Seq<Attribute>) -> Seq<AttributeView>
    decreases s,
{
    Seq::new(
        s.len(),
        |i: int|
            if 0 <= i < s.len() {
                attribute_view(s[i])
            } else {
                arbitrary()
            },
    )
}

impl View for AttributeValue {
    type V = ValueView;

    open spec fn view(&self) -> ValueView {
        value_view(*self)
    }
}

impl View for Attribute {
    type V = AttributeView;

    open spec fn view(&self) -> AttributeView {
        attribute_view(*self)
    }
}

/// The view of a run of attributes grows with the run.
pub proof fn lemma_attributes_view_push(s: Seq<Attribute>, a: Attribute)
    ensures
        attributes_view(s.push(a)) == attributes_view(s).push(a@),
{
    assert(attributes_view(s.push(a)) =~= attributes_view(s).push(a@));
}

/// The view of a run of attributes follows a change of one of them.
pub proof fn lemma_attributes_view_update(s: Seq<Attribute>, i: int, a: Attribute)
    requires
        0 <= i < s.len(),
    ensures
        attributes_view(s.update(i, a)) == attributes_view(s).update(i, a@),
{
    assert(attributes_view(s.update(i, a)) =~= attributes_view(s).update(i, a@));
}

/// The place of the first attribute of the given key at or after `from`.
pub open spec fn position_of(s: Seq<AttributeView>, key: Seq<char>, from: int) -> Option<int>
    decreases s.len() - from,
{
    if from < 0 || from >= s.len() {
        None
    } else if s[from].key == key {
        Some(from)
    } else {
        position_of(s, key, from + 1)
    }
}

/// The attribute of the given key, if there is one.
pub open spec fn lookup(s: Seq<AttributeView>, key: Seq<char>) -> Option<AttributeView> {
    match position_of(s, key, 0) {
        Some(i) => Some(s[i]),
        None => None,
    }
}

/// The attributes with `a` among them: in the place of the one that had its
/// key, or else at the end.
pub open spec fn with_attribute(s: Seq<AttributeView>, a: AttributeView) -> Seq<AttributeView> {
    match position_of(s, a.key, 0) {
        Some(i) => s.update(i, a),
        None => s.push(a),
    }
}

/// Whether no two of the attributes share a key.
pub open spec fn keys_distinct(s: Seq<AttributeView>) -> bool {
    forall|i: int, j: int| 0 <= i < j < s.len() ==> (#[trigger] s[i]).key != (#[trigger] s[j]).key
}

/// `position_of` finds a place that holds the key, and none where no place
/// at or after `from` holds it.
pub proof fn lemma_position_of(s: Seq<AttributeView>, key: Seq<char>, from: int)
    requires
        0 <= from <= s.len(),
    ensures
        match position_of(s, key, from) {
            Some(i) => from <= i < s.len() && s[i].key == key && forall|k: int|
                from <= k < i ==> (#[trigger] s[k]).key != key,
            None => forall|k: int| from <= k < s.len() ==> (#[trigger] s[k]).key != key,
        },
    decreases s.len() - from,
{
    if from < s.len() && s[from].key != key {
        lemma_position_of(s, key, from + 1);
    }
}

/// Adding an attribute keeps the keys distinct, and makes it the one that is
/// found under its key.
pub proof fn lemma_with_attribute(s: Seq<AttributeView>, a: AttributeView)
    requires
        keys_distinct(s),
    ensures
        keys_distinct(with_attribute(s, a)),
        lookup(with_attribute(s, a), a.key) == Some(a),
{
    lemma_position_of(s, a.key, 0);
    let t = with_attribute(s, a);
    lemma_position_of(t, a.key, 0);
    match position_of(s, a.key, 0) {
        Some(i) => {
            assert(t[i] == a);
            assert forall|x: int, y: int| 0 <= x < y < t.len() implies (#[trigger] t[x]).key != (
            #[trigger] t[y]).key by {
                assert(s[x].key != s[y].key);
            }
        },
        None => {
            assert(t[s.len() as int] == a);
            assert forall|x: int, y: int| 0 <= x < y < t.len() implies (#[trigger] t[x]).key != (
            #[trigger] t[y]).key by {
                if y < s.len() {
                    assert(s[x].key != s[y].key);
                } else {
                    assert(s[x].key != a.key);
                }
            }
        },
    }
    match position_of(t, a.key, 0) {
        Some(k) => {
            assert(t[k].key == a.key);
            match position_of(s, a.key, 0) {
                Some(i) => {
                    if k != i {
                        if k < i {
                            assert(t[k].key != t[i].key);
                        } else {
                            assert(t[i].key != t[k].key);
                        }
                    }
                },
                None => {
                    if k < s.len() {
                        assert(s[k].key != a.key);
                    }
                },
            }
        },
        None => {
            match position_of(s, a.key, 0) {
                Some(i) => {
                    assert(t[i].key == a.key);
                },
                None => {
                    assert(t[s.len() as int].key == a.key);
                },
            }
        },
    }
}

/// Attributes are a mapping from keys: after one is added, it is the one
/// found under its key, and under every other key the same is found as
/// before.
pub proof fn lemma_lookup_after_adding(s: Seq<AttributeView>, a: AttributeView, key: Seq<char>)
    ensures
        lookup(with_attribute(s, a), key) == if key == a.key {
            Some(a)
        } else {
            lookup(s, key)
        },
{
    let t = with_attribute(s, a);
    lemma_position_of(s, a.key, 0);
    lemma_position_of(s, key, 0);
    lemma_position_of(t, key, 0);
    match position_of(s, a.key, 0) {
        Some(i) => {
            assert(t[i] == a);
            assert forall|k: int| 0 <= k < s.len() implies (#[trigger] t[k]).key == s[k].key by {}
            match position_of(t, key, 0) {
                Some(p) => {
                    assert(t[p].key == s[p].key);
                    match position_of(s, key, 0) {
                        Some(q) => {
                            assert(t[q].key == s[q].key);
                            if p < q {
                                assert(s[p].key != key);
                            } else if q < p {
                                assert(t[q].key != key);
                            }
                        },
                        None => {
                            assert(s[p].key != key);
                        },
                    }
                },
                None => {
                    match position_of(s, key, 0) {
                        Some(q) => {
                            assert(t[q].key == s[q].key);
                        },
                        None => {},
                    }
                },
            }
        },
        None => {
            assert(t[s.len() as int] == a);
            assert forall|k: int| 0 <= k < s.len() implies (#[trigger] t[k]) == s[k] by {}
            match position_of(t, key, 0) {
                Some(p) => {
                    match position_of(s, key, 0) {
                        Some(q) => {
                            assert(t[q] == s[q]);
                            if p < q {
                                assert(t[p] == s[p]);
                                assert(s[p].key != key);
                            } else if q < p {
                                assert(t[q].key != key);
                            }
                        },
                        None => {
                            if p < s.len() {
                                assert(t[p] == s[p]);
                                assert(s[p].key != key);
                            }
                        },
                    }
                },
                None => {
                    assert(t[s.len() as int].key != key);
                    match position_of(s, key, 0) {
                        Some(q) => {
                            assert(t[q] == s[q]);
                        },
                        None => {},
                    }
                },
            }
        },
    }
}

impl Attribute {
    /// An attribute of the given key and value, with nothing attached.
    pub fn new(key: String, attribute_val: AttributeValue) -> (r: Self)
        ensures
            r@ == (AttributeView { key: key@, value: attribute_val@, own_attributes: None }),
    {
        Self { key, value: attribute_val, own_attributes: None }
    }

    /// An attribute of the given key and value, with nothing attached, and a
    /// copy of its key.
    pub fn new_with_key(key: String, attribute_val: AttributeValue) -> (r: (String, Self))
        ensures
            r.0@ == key@,
            r.1@ == (AttributeView { key: key@, value: attribute_val@, own_attributes: None }),
    {
        (key.clone(), Self { key, value: attribute_val, own_attributes: None })
    }
}

impl Attributes {
    #[verifier::type_invariant]
    spec fn well_formed(self) -> bool {
        keys_distinct(attributes_view(self.items@))
    }

    /// The attributes, in the order in which their keys first came.
    pub closed spec fn view(self) -> Seq<AttributeView>
        decreases self,
    {
        attributes_view(self.items@)
    }

    /// No attributes.
    pub fn new() -> (r: Self)
        ensures
            r@ == Seq::<AttributeView>::empty(),
    {
        Attributes { items: Vec::new() }
    }

    /// The number of attributes. No two of them share a key.
    pub fn len(&self) -> (n: usize)
        ensures
            n == self@.len(),
            keys_distinct(self@),
    {
        proof {
            use_type_invariant(self);
        }
        self.items.len()
    }

    /// The attribute at a place. It is a part of these attributes.
    pub fn at(&self, place: usize) -> (r: &Attribute)
        requires
            place < self@.len(),
        ensures
            r@ == self@[place as int],
            decreases_to!(*self => *r),
    {
        &self.items[place]
    }

    fn find(&self, key: &String) -> (r: Option<usize>)
        ensures
            match r {
                Some(i) => position_of(self@, key@, 0) == Some(i as int) && i < self.items@.len(),
                None => position_of(self@, key@, 0).is_none(),
            },
    {
        let mut i: usize = 0;
        while i < self.items.len()
            invariant
                i <= self.items.len(),
                position_of(self@, key@, 0) == position_of(self@, key@, i as int),
            decreases self.items.len() - i,
        {
            if self.items[i].key == *key {
                return Some(i);
            }
            i += 1;
        }
        None
    }

    /// The attribute of the given key, if there is one.
    pub fn get(&self, key: &String) -> (r: Option<&Attribute>)
        ensures
            match r {
                Some(a) => lookup(self@, key@) == Some(a@),
                None => lookup(self@, key@).is_none(),
            },
    {
        match self.find(key) {
            Some(i) => Some(&self.items[i]),
            None => None,
        }
    }

    /// Puts an attribute among these: in the place of the one that has its
    /// key, or else at the end.
    pub fn insert(&mut self, attribute: Attribute)
        ensures
            final(self)@ == with_attribute(old(self)@, attribute@),
    {
        proof {
            use_type_invariant(&*self);
            lemma_with_attribute(self@, attribute@);
        }
        let found = self.find(&attribute.key);
        let mut items: Vec<Attribute> = Vec::new();
        std::mem::swap(&mut items, &mut self.items);
        match found {
            Some(i) => {
                proof {
                    lemma_attributes_view_update(items@, i as int, attribute);
                }
                items.set(i, attribute);
            },
            None => {
                proof {
                    lemma_attributes_view_push(items@, attribute);
                }
                items.push(attribute);
            },
        }
        self.items = items;
    }
}

/// Adding an attribute by key and value.
pub trait AttributeAddable {
    /// What is held, as attributes in order.
    spec fn attributes(&self) -> Seq<AttributeView>;

    /// Adds an attribute of the given key and value, with nothing attached;
    /// it takes the place of the one that has its key, if there is one. The
    /// attribute is handed back as it stands among the others.
    fn add_to_attributes(&mut self, key: String, value: AttributeValue) -> (r: Option<&Attribute>)
        ensures
            final(self).attributes() == with_attribute(
                old(self).attributes(),
                AttributeView { key: key@, value: value@, own_attributes: None },
            ),
            r matches Some(a) && a@ == (AttributeView {
                key: key@,
                value: value@,
                own_attributes: None,
            }),
    ;
}

impl AttributeAddable for Attributes {
    open spec fn attributes(&self) -> Seq<AttributeView> {
        self.view()
    }

    fn add_to_attributes(&mut self, key: String, value: AttributeValue) -> (r: Option<
        &Attribute,
    >) {
        let (k, v) = Attribute::new_with_key(key, value);
        proof {
            lemma_lookup_after_adding(self@, v@, v@.key);
        }
        self.insert(v);
        self.get(&k)
    }
}

/// An event: its attributes.
#[derive(Debug)]
pub struct Event {
    pub attributes: Attributes,
}

/// A trace: its attributes, and its events in the order in which they
/// happened.
#[derive(Debug)]
pub struct Trace {
    pub attributes: Attributes,
    pub events: Vec<Event>,
}

/// A declaration of a namespace of attribute keys.
#[derive(Debug)]
pub struct EventLogExtension {
    pub name: String,
    pub prefix: String,
    pub uri: String,
}

/// A named rule that tells events apart by the attributes of the given keys.
#[derive(Debug)]
pub struct EventLogClassifier {
    pub name: String,
    pub keys: Vec<String>,
}

/// An event log: its attributes and its traces in order, the extensions
/// and classifiers it declares, and the attributes that stand for those an
/// event or a trace does not have.
#[derive(Debug)]
pub struct EventLog {
    pub attributes: Attributes,
    pub traces: Vec<Trace>,
    pub extensions: Option<Vec<EventLogExtension>>,
    pub classifiers: Option<Vec<EventLogClassifier>>,
    pub global_trace_attrs: Attributes,
    pub global_event_attrs: Attributes,
}

/// What an event holds.
pub struct EventView {
    pub attributes: Seq<AttributeView>,
}

/// What a trace holds.
pub struct TraceView {
    pub attributes: Seq<AttributeView>,
    pub events: Seq<EventView>,
}

/// What an extension holds.
pub struct ExtensionView {
    pub name: Seq<char>,
    pub prefix: Seq<char>,
    pub uri: Seq<char>,
}

/// What a classifier holds.
pub struct ClassifierView {
    pub name: Seq<char>,
    pub keys: Seq<Seq<char>>,
}

/// What an event log holds.
pub struct EventLogView {
    pub attributes: Seq<AttributeView>,
    pub traces: Seq<TraceView>,
    pub extensions: Option<Seq<ExtensionView>>,
    pub classifiers: Option<Seq<ClassifierView>>,
    pub global_trace_attrs: Seq<AttributeView>,
    pub global_event_attrs: Seq<AttributeView>,
}

impl View for Event {
    type V = EventView;

    open spec fn view(&self) -> EventView {
        EventView { attributes: self.attributes@ }
    }
}

/// What a run of events holds.
pub open spec fn events_view(events: Seq<Event>) -> Seq<EventView> {
    Seq::new(events.len(), |i: int| events[i]@)
}

impl View for Trace {
    type V = TraceView;

    open spec fn view(&self) -> TraceView {
        TraceView { attributes: self.attributes@, events: events_view(self.events@) }
    }
}

/// What a run of traces holds.
pub open spec fn traces_view(traces: Seq<Trace>) -> Seq<TraceView> {
    Seq::new(traces.len(), |i: int| traces[i]@)
}

impl View for EventLogExtension {
    type V = ExtensionView;

    open spec fn view(&self) -> ExtensionView {
        ExtensionView { name: self.name@, prefix: self.prefix@, uri: self.uri@ }
    }
}

impl View for EventLogClassifier {
    type V = ClassifierView;

    open spec fn view(&self) -> ClassifierView {
        ClassifierView { name: self.name@, keys: crate::text::names_view(self.keys@) }
    }
}

/// What a run of extensions holds.
pub open spec fn extensions_view(extensions: Seq<EventLogExtension>) -> Seq<ExtensionView> {
    Seq::new(extensions.len(), |i: int| extensions[i]@)
}

/// What a run of classifiers holds.
pub open spec fn classifiers_view(classifiers: Seq<EventLogClassifier>) -> Seq<ClassifierView> {
    Seq::new(classifiers.len(), |i: int| classifiers[i]@)
}

impl View for EventLog {
    type V = EventLogView;

    open spec fn view(&self) -> EventLogView {
        EventLogView {
            attributes: self.attributes@,
            traces: traces_view(self.traces@),
            extensions: match self.extensions {
                Some(e) => Some(extensions_view(e@)),
                None => None,
            },
            classifiers: match self.classifiers {
                Some(c) => Some(classifiers_view(c@)),
                None => None,
            },
            global_trace_attrs: self.global_trace_attrs@,
            global_event_attrs: self.global_event_attrs@,
        }
    }
}

impl EventLogView {
    /// A log that holds nothing and declares no extension and no classifier.
    pub open spec fn empty() -> EventLogView {
        EventLogView {
            attributes: Seq::empty(),
            traces: Seq::empty(),
            extensions: Some(Seq::empty()),
            classifiers: Some(Seq::empty()),
            global_trace_attrs: Seq::empty(),
            global_event_attrs: Seq::empty(),
        }
    }

    /// The number of events in all traces.
    pub open spec fn event_count(self) -> nat {
        crate::rows::total(self.event_counts())
    }

    /// The number of events of each trace.
    pub open spec fn event_counts(self) -> Seq<nat> {
        Seq::new(self.traces.len(), |t: int| self.traces[t].events.len())
    }
}

impl EventLog {
    /// A log that holds nothing and declares no extension and no classifier.
    pub fn new() -> (log: EventLog)
        ensures
            log@ == EventLogView::empty(),
    {
        let log = EventLog {
            attributes: Attributes::new(),
            traces: Vec::new(),
            extensions: Some(Vec::new()),
            classifiers: Some(Vec::new()),
            global_trace_attrs: Attributes::new(),
            global_event_attrs: Attributes::new(),
        };
        assert(traces_view(log.traces@) == Seq::<TraceView>::empty());
        assert(extensions_view(log.extensions.unwrap()@) == Seq::<ExtensionView>::empty());
        assert(classifiers_view(log.classifiers.unwrap()@) == Seq::<ClassifierView>::empty());
        log
    }
}

impl Trace {
    /// A trace without attributes and without events.
    pub fn new() -> (trace: Trace)
        ensures
            trace@ == (TraceView { attributes: Seq::empty(), events: Seq::empty() }),
    {
        let trace = Trace { attributes: Attributes::new(), events: Vec::new() };
        assert(events_view(trace.events@) == Seq::<EventView>::empty());
        trace
    }
}

impl Event {
    /// An event without attributes.
    pub fn new() -> (event: Event)
        ensures
            event@ == (EventView { attributes: Seq::empty() }),
    {
        Event { attributes: Attributes::new() }
    }
}

/// The view of a run of events grows with the run.
pub proof fn lemma_events_view_push(events: Seq<Event>, event: Event)
    ensures
        events_view(events.push(event)) == events_view(events).push(event@),
        events_view(events.push(event)).drop_last() == events_view(events),
{
    assert(events_view(events.push(event)) =~= events_view(events).push(event@));
    assert(events_view(events.push(event)).drop_last() =~= events_view(events));
}

/// The view of a run of traces grows with the run.
pub proof fn lemma_traces_view_push(traces: Seq<Trace>, trace: Trace)
    ensures
        traces_view(traces.push(trace)) == traces_view(traces).push(trace@),
        traces_view(traces.push(trace)).drop_last() == traces_view(traces),
{
    assert(traces_view(traces.push(trace)) =~= traces_view(traces).push(trace@));
    assert(traces_view(traces.push(trace)).drop_last() =~= traces_view(traces));
}

/// The view of a run of events without its last one.
pub proof fn lemma_events_view_drop_last(events: Seq<Event>)
    requires
        events.len() > 0,
    ensures
        events_view(events.drop_last()) == events_view(events).drop_last(),
        events_view(events).last() == events.last()@,
{
    assert(events_view(events.drop_last()) =~= events_view(events).drop_last());
}

/// The view of a run of traces without its last one.
pub proof fn lemma_traces_view_drop_last(traces: Seq<Trace>)
    requires
        traces.len() > 0,
    ensures
        traces_view(traces.drop_last()) == traces_view(traces).drop_last(),
        traces_view(traces).last() == traces.last()@,
{
    assert(traces_view(traces.drop_last()) =~= traces_view(traces).drop_last());
}

/// The view of a run of attributes without its last one.
pub proof fn lemma_attributes_view_drop_last(s: Seq<Attribute>)
    requires
        s.len() > 0,
    ensures
        attributes_view(s.drop_last()) == attributes_view(s).drop_last(),
        attributes_view(s).last() == s.last()@,
{
    assert(attributes_view(s.drop_last()) =~= attributes_view(s).drop_last());
}

fn clone_attributes(items: &Vec<Attribute>) -> (r: Vec<Attribute>)
    ensures
        attributes_view(r@) == attributes_view(items@),
    decreases *items, 0nat,
{
    let mut r: Vec<Attribute> = Vec::new();
    let mut i: usize = 0;
    while i < items.len()
        invariant
            i <= items.len(),
            attributes_view(r@) == attributes_view(items@).take(i as int),
        decreases *items, items.len() - i,
    {
        let item = &items[i];
        proof {
            broadcast use vstd::std_specs::vec::axiom_vec_index_decreases;

            assert(decreases_to!(*items => items[i as int]));
        }
        let copy = item.clone();
        proof {
            lemma_attributes_view_push(r@, copy);
            assert(attributes_view(items@).take(i + 1) == attributes_view(items@).take(
                i as int,
            ).push(copy@));
        }
        r.push(copy);
        i += 1;
    }
    assert(attributes_view(items@).take(items.len() as int) == attributes_view(items@));
    r
}

impl Clone for AttributeValue {
    fn clone(&self) -> (r: Self)
        ensures
            r@ == self@,
        decreases *self, 0nat,
    {
        match self {
            AttributeValue::String(s) => AttributeValue::String(s.clone()),
            AttributeValue::Date(t) => AttributeValue::Date(*t),
            AttributeValue::Int(n) => AttributeValue::Int(*n),
            AttributeValue::Float(f) => AttributeValue::Float(f.clone()),
            AttributeValue::Boolean(b) => AttributeValue::Boolean(*b),
            AttributeValue::ID(id) => AttributeValue::ID(*id),
            AttributeValue::List(l) => {
                proof {
                    assert(self->List_0 == *l);
                    assert(decreases_to!(*self => self->List_0));
                }
                AttributeValue::List(clone_attributes(l))
            },
            AttributeValue::Container(c) => {
                proof {
                    assert(self->Container_0 == *c);
                    assert(decreases_to!(*self => self->Container_0));
                }
                AttributeValue::Container(c.clone())
            },
            AttributeValue::Null => AttributeValue::Null,
        }
    }
}

impl Clone for Attribute {
    fn clone(&self) -> (r: Self)
        ensures
            r@ == self@,
        decreases *self, 0nat,
    {
        let own_attributes = match &self.own_attributes {
            Some(own) => {
                proof {
                    assert(self.own_attributes->Some_0 == *own);
                    assert(decreases_to!(self.own_attributes => self.own_attributes->Some_0));
                }
                Some(own.clone())
            },
            None => None,
        };
        Attribute { key: self.key.clone(), value: self.value.clone(), own_attributes }
    }
}

impl Clone for Attributes {
    fn clone(&self) -> (r: Self)
        ensures
            r@ == self@,
        decreases *self, 0nat,
    {
        proof {
            use_type_invariant(self);
        }
        Attributes { items: clone_attributes(&self.items) }
    }
}

impl Clone for Event {
    fn clone(&self) -> (r: Self)
        ensures
            r@ == self@,
    {
        Event { attributes: self.attributes.clone() }
    }
}

impl Clone for Trace {
    fn clone(&self) -> (r: Self)
        ensures
            r@ == self@,
    {
        let mut events: Vec<Event> = Vec::new();
        let mut i: usize = 0;
        while i < self.events.len()
            invariant
                i <= self.events.len(),
                events_view(events@) == events_view(self.events@).take(i as int),
            decreases self.events.len() - i,
        {
            let event = self.events[i].clone();
            proof {
                assert(events_view(events@.push(event)) == events_view(events@).push(event@));
                assert(events_view(self.events@).take(i + 1) == events_view(self.events@).take(
                    i as int,
                ).push(event@));
            }
            events.push(event);
            i += 1;
        }
        assert(events_view(self.events@).take(self.events.len() as int) == events_view(
            self.events@,
        ));
        Trace { attributes: self.attributes.clone(), events }
    }
}

impl Clone for EventLogExtension {
    fn clone(&self) -> (r: Self)
        ensures
            r@ == self@,
    {
        EventLogExtension {
            name: self.name.clone(),
            prefix: self.prefix.clone(),
            uri: self.uri.clone(),
        }
    }
}

impl Clone for EventLogClassifier {
    fn clone(&self) -> (r: Self)
        ensures
            r@ == self@,
    {
        let mut keys: Vec<String> = Vec::new();
        let mut i: usize = 0;
        while i < self.keys.len()
            invariant
                i <= self.keys.len(),
                crate::text::names_view(keys@) == crate::text::names_view(self.keys@).take(
                    i as int,
                ),
            decreases self.keys.len() - i,
        {
            let key = self.keys[i].clone();
            proof {
                crate::text::lemma_names_view_push(keys@, key);
                assert(crate::text::names_view(self.keys@).take(i + 1) == crate::text::names_view(
                    self.keys@,
                ).take(i as int).push(key@));
            }
            keys.push(key);
            i += 1;
        }
        assert(crate::text::names_view(self.keys@).take(self.keys.len() as int)
            == crate::text::names_view(self.keys@));
        EventLogClassifier { name: self.name.clone(), keys }
    }
}

fn clone_extensions(list: &Vec<EventLogExtension>) -> (r: Vec<EventLogExtension>)
    ensures
        extensions_view(r@) == extensions_view(list@),
{
    let mut r: Vec<EventLogExtension> = Vec::new();
    let mut i: usize = 0;
    while i < list.len()
        invariant
            i <= list.len(),
            extensions_view(r@) == extensions_view(list@).take(i as int),
        decreases list.len() - i,
    {
        let item = list[i].clone();
        proof {
            assert(extensions_view(r@.push(item)) == extensions_view(r@).push(item@));
            assert(extensions_view(list@).take(i + 1) == extensions_view(list@).take(
                i as int,
            ).push(item@));
        }
        r.push(item);
        i += 1;
    }
    assert(extensions_view(list@).take(list.len() as int) == extensions_view(list@));
    r
}

fn clone_classifiers(list: &Vec<EventLogClassifier>) -> (r: Vec<EventLogClassifier>)
    ensures
        classifiers_view(r@) == classifiers_view(list@),
{
    let mut r: Vec<EventLogClassifier> = Vec::new();
    let mut i: usize = 0;
    while i < list.len()
        invariant
            i <= list.len(),
            classifiers_view(r@) == classifiers_view(list@).take(i as int),
        decreases list.len() - i,
    {
        let item = list[i].clone();
        proof {
            assert(classifiers_view(r@.push(item)) == classifiers_view(r@).push(item@));
            assert(classifiers_view(list@).take(i + 1) == classifiers_view(list@).take(
                i as int,
            ).push(item@));
        }
        r.push(item);
        i += 1;
    }
    assert(classifiers_view(list@).take(list.len() as int) == classifiers_view(list@));
    r
}

impl Clone for EventLog {
    fn clone(&self) -> (r: Self)
        ensures
            r@ == self@,
    {
        let mut traces: Vec<Trace> = Vec::new();
        let mut i: usize = 0;
        while i < self.traces.len()
            invariant
                i <= self.traces.len(),
                traces_view(traces@) == traces_view(self.traces@).take(i as int),
            decreases self.traces.len() - i,
        {
            let trace = self.traces[i].clone();
            proof {
                assert(traces_view(traces@.push(trace)) == traces_view(traces@).push(trace@));
                assert(traces_view(self.traces@).take(i + 1) == traces_view(self.traces@).take(
                    i as int,
                ).push(trace@));
            }
            traces.push(trace);
            i += 1;
        }
        assert(traces_view(self.traces@).take(self.traces.len() as int) == traces_view(
            self.traces@,
        ));
        EventLog {
            attributes: self.attributes.clone(),
            traces,
            extensions: match &self.extensions {
                Some(list) => Some(clone_extensions(list)),
                None => None,
            },
            classifiers: match &self.classifiers {
                Some(list) => Some(clone_classifiers(list)),
                None => None,
            },
            global_trace_attrs: self.global_trace_attrs.clone(),
            global_event_attrs: self.global_event_attrs.clone(),
        }
    }
}

} // verus!
