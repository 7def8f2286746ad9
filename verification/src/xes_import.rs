//! Import of XES event logs: a state machine over the tokens of the XML
//! document.

use crate::event_log_struct::{
    attributes_view, classifiers_view, extensions_view, lemma_attributes_view_drop_last,
    lemma_attributes_view_push, lemma_events_view_drop_last, lemma_events_view_push,
    lemma_traces_view_drop_last, lemma_traces_view_push, traces_view, with_attribute, Attribute,
    AttributeValue, AttributeView, Attributes, ClassifierView, Event, EventLog,
    EventLogClassifier, EventLogExtension, EventLogView, EventView, ExtensionView, Trace,
    TraceView, ValueView,
};
use crate::float_literal::FloatLiteral;
use crate::ident::{read_uuid, uuid_value};
use crate::text::{decimal_i64, is_float_literal, parse_i64, split_on, str_chars, str_eq};
use crate::time::{format_view, instant_of_text, parse_timestamp, Timestamp};
use crate::xml::{
    document_item, document_offset, document_tokens, goes_on_after, reading_goes_on, tag_field,
    token_of_raw, TagView, TokenReader, TokenView, XmlTag, XmlToken,
};
use vstd::prelude::*;

verus! {

/// Where in the document the importer stands.
#[derive(Clone, Copy, Debug, PartialEq, Eq, Structural)]
pub enum Mode {
    /// Inside a trace, outside its events.
    Trace,
    /// Inside an event.
    Event,
    /// Inside an attribute that holds other attributes.
    Attribute,
    /// Inside a declaration of global attributes.
    Global,
    /// At the level of the log, outside every trace.
    Log,
}

/// What a declaration of global attributes is about.
#[derive(Clone, Copy, Debug, PartialEq, Eq, Structural)]
pub enum GlobalScope {
    /// The attributes stand in for those that a trace lacks.
    Trace,
    /// The attributes stand in for those that an event lacks.
    Event,
    /// The declaration names no scope that is known; its attributes are
    /// dropped.
    Unknown,
}

/// How to import.
#[derive(Debug)]
pub struct XESImportOptions {
    /// The format of dates, in the strftime notation; RFC 3339 where none is
    /// given.
    pub date_format: Option<String>,
    /// Whether a value that does not fit the type of its tag ends the import
    /// with an error. Where it does not, such an attribute has no value.
    pub strict: bool,
}

/// How to import, with texts.
pub struct OptionsView {
    pub date_format: Option<Seq<char>>,
    pub strict: bool,
}

impl View for XESImportOptions {
    type V = OptionsView;

    open spec fn view(&self) -> OptionsView {
        OptionsView { date_format: format_view(self.date_format), strict: self.strict }
    }
}

impl Clone for XESImportOptions {
    fn clone(&self) -> (r: Self)
        ensures
            r@ == self@,
    {
        XESImportOptions {
            date_format: match &self.date_format {
                Some(f) => Some(f.clone()),
                None => None,
            },
            strict: self.strict,
        }
    }
}

impl Default for XESImportOptions {
    /// Dates in RFC 3339; a value that does not fit its type is an error.
    fn default() -> (r: Self)
        ensures
            r@ == (OptionsView { date_format: None, strict: true }),
    {
        XESImportOptions { date_format: None, strict: true }
    }
}

/// The type that the name of a tag gives to the attribute the tag stands
/// for.
#[derive(Clone, Copy, Debug, PartialEq, Eq, Structural)]
pub enum TagType {
    String,
    Date,
    Int,
    Float,
    Boolean,
    ID,
    Container,
    List,
    /// None of the types of the standard.
    Unknown,
}

/// A value that does not fit the type of its tag.
#[derive(Debug)]
pub struct XESParseError {
    /// The type that the tag names.
    pub expected: TagType,
    /// The key of the attribute.
    pub key: String,
    /// The text that is no value of the type.
    pub value: String,
}

/// A value that does not fit the type of its tag, with texts.
pub struct ParseErrorView {
    pub expected: TagType,
    pub key: Seq<char>,
    pub value: Seq<char>,
}

impl View for XESParseError {
    type V = ParseErrorView;

    open spec fn view(&self) -> ParseErrorView {
        ParseErrorView { expected: self.expected, key: self.key@, value: self.value@ }
    }
}

impl TagType {
    /// The name of the type, as tags have it; `unknown` for a type that is
    /// not known.
    pub open spec fn name(self) -> Seq<char> {
        match self {
            TagType::String => "string"@,
            TagType::Date => "date"@,
            TagType::Int => "int"@,
            TagType::Float => "float"@,
            TagType::Boolean => "boolean"@,
            TagType::ID => "id"@,
            TagType::Container => "container"@,
            TagType::List => "list"@,
            TagType::Unknown => "unknown"@,
        }
    }

    /// The name of the type.
    pub fn as_str(&self) -> (r: &'static str)
        ensures
            r@ == self.name(),
    {
        match self {
            TagType::String => "string",
            TagType::Date => "date",
            TagType::Int => "int",
            TagType::Float => "float",
            TagType::Boolean => "boolean",
            TagType::ID => "id",
            TagType::Container => "container",
            TagType::List => "list",
            TagType::Unknown => "unknown",
        }
    }
}

impl ParseErrorView {
    /// The error in words: the key of the attribute, the text, and the type
    /// of which the text is no value.
    pub open spec fn message(self) -> Seq<char> {
        "attribute '"@ + self.key + "': '"@ + self.value + "' is no value of type "@
            + self.expected.name()
    }
}

impl XESParseError {
    /// Tells the error in words.
    pub fn message(&self) -> (r: String)
        ensures
            r@ == self@.message(),
    {
        let mut r = "attribute '".to_owned();
        vstd::string::StringExecFns::append(&mut r, self.key.as_str());
        vstd::string::StringExecFns::append(&mut r, "': '");
        vstd::string::StringExecFns::append(&mut r, self.value.as_str());
        vstd::string::StringExecFns::append(&mut r, "' is no value of type ");
        vstd::string::StringExecFns::append(&mut r, self.expected.as_str());
        r
    }
}

impl Clone for XESParseError {
    fn clone(&self) -> (r: Self)
        ensures
            r@ == self@,
    {
        XESParseError {
            expected: self.expected,
            key: self.key.clone(),
            value: self.value.clone(),
        }
    }
}

/// The type that a tag of the given name stands for.
pub open spec fn tag_type(name: Seq<char>) -> TagType {
    if name == "string"@ {
        TagType::String
    } else if name == "date"@ {
        TagType::Date
    } else if name == "int"@ {
        TagType::Int
    } else if name == "float"@ {
        TagType::Float
    } else if name == "boolean"@ {
        TagType::Boolean
    } else if name == "id"@ {
        TagType::ID
    } else if name == "container"@ {
        TagType::Container
    } else if name == "list"@ {
        TagType::List
    } else {
        TagType::Unknown
    }
}

/// Tells the type that a tag of the given name stands for.
pub fn classify_tag(name: &str) -> (r: TagType)
    ensures
        r == tag_type(name@),
{
    let chars = str_chars(name);
    if crate::text::chars_eq_str(&chars, "string") {
        TagType::String
    } else if crate::text::chars_eq_str(&chars, "date") {
        TagType::Date
    } else if crate::text::chars_eq_str(&chars, "int") {
        TagType::Int
    } else if crate::text::chars_eq_str(&chars, "float") {
        TagType::Float
    } else if crate::text::chars_eq_str(&chars, "boolean") {
        TagType::Boolean
    } else if crate::text::chars_eq_str(&chars, "id") {
        TagType::ID
    } else if crate::text::chars_eq_str(&chars, "container") {
        TagType::Container
    } else if crate::text::chars_eq_str(&chars, "list") {
        TagType::List
    } else {
        TagType::Unknown
    }
}

/// The value that a text denotes under a type, given what the text denotes
/// as a date and as an identifier; `None` where the text is no value of the
/// type. A list and a container start empty; a type that is not known gives
/// an attribute without a value.
pub open spec fn typed_value(
    expected: TagType,
    text: Seq<char>,
    instant: Option<Timestamp>,
    id: Option<u128>,
) -> Option<ValueView> {
    match expected {
        TagType::String => Some(ValueView::String(text)),
        TagType::Date => match instant {
            Some(t) => Some(ValueView::Date(t)),
            None => None,
        },
        TagType::Int => match decimal_i64(text) {
            Some(n) => Some(ValueView::Int(n)),
            None => None,
        },
        TagType::Float => if is_float_literal(text) {
            Some(ValueView::Float(text))
        } else {
            None
        },
        TagType::Boolean => if text == "true"@ {
            Some(ValueView::Boolean(true))
        } else if text == "false"@ {
            Some(ValueView::Boolean(false))
        } else {
            None
        },
        TagType::ID => match id {
            Some(x) => Some(ValueView::ID(x)),
            None => None,
        },
        TagType::Container => Some(ValueView::Container(Seq::empty())),
        TagType::List => Some(ValueView::List(Seq::empty())),
        TagType::Unknown => Some(ValueView::Null),
    }
}

/// The key and the value of the attribute that a tag stands for, given what
/// its text denotes as a date and as an identifier. A text that is no value
/// of the tag's type is an error where the import is strict, and else gives
/// an attribute without a value.
pub open spec fn attribute_of_parts(
    expected: TagType,
    key: Seq<char>,
    text: Seq<char>,
    instant: Option<Timestamp>,
    id: Option<u128>,
    strict: bool,
) -> Result<(Seq<char>, ValueView), ParseErrorView> {
    match typed_value(expected, text, instant, id) {
        Some(v) => Ok((key, v)),
        None => if strict {
            Err(ParseErrorView { expected, key, value: text })
        } else {
            Ok((key, ValueView::Null))
        },
    }
}

/// The key and the value of the attribute that a tag stands for: the key is
/// what the tag has under `key`, the value what it has under `value`, read
/// by the type that the tag's name gives.
pub open spec fn attribute_of_tag(tag: TagView, options: OptionsView) -> Result<
    (Seq<char>, ValueView),
    ParseErrorView,
> {
    let text = tag_field(tag.attributes, "value"@, 0);
    attribute_of_parts(
        tag_type(tag.name),
        tag_field(tag.attributes, "key"@, 0),
        text,
        instant_of_text(text, options.date_format),
        uuid_value(text),
        options.strict,
    )
}

/// Whether an outcome of reading an attribute is the wanted one: the key
/// and the value, or the error.
pub open spec fn attribute_matches(
    r: Result<(String, AttributeValue), XESParseError>,
    wanted: Result<(Seq<char>, ValueView), ParseErrorView>,
) -> bool {
    match wanted {
        Ok(w) => r matches Ok(x) && x.0@ == w.0 && x.1@ == w.1,
        Err(e) => r matches Err(x) && x@ == e,
    }
}

/// Makes the attribute that a tag stands for of the tag's type, key and
/// text, and of what the text denotes as a date and as an identifier.
pub fn attribute_from_parts(
    expected: TagType,
    key: String,
    text: String,
    instant: Option<Timestamp>,
    id: Option<u128>,
    strict: bool,
) -> (r: Result<(String, AttributeValue), XESParseError>)
    ensures
        attribute_matches(r, attribute_of_parts(expected, key@, text@, instant, id, strict)),
{
    let value: Option<AttributeValue> = match expected {
        TagType::String => Some(AttributeValue::String(text.clone())),
        TagType::Date => match instant {
            Some(t) => Some(AttributeValue::Date(t)),
            None => None,
        },
        TagType::Int => match parse_i64(&str_chars(text.as_str())) {
            Some(n) => Some(AttributeValue::Int(n)),
            None => None,
        },
        TagType::Float => match FloatLiteral::parse(text.as_str()) {
            Some(f) => Some(AttributeValue::Float(f)),
            None => None,
        },
        TagType::Boolean => if str_eq(text.as_str(), "true") {
            Some(AttributeValue::Boolean(true))
        } else if str_eq(text.as_str(), "false") {
            Some(AttributeValue::Boolean(false))
        } else {
            None
        },
        TagType::ID => match id {
            Some(x) => Some(AttributeValue::ID(x)),
            None => None,
        },
        TagType::Container => Some(AttributeValue::Container(Attributes::new())),
        TagType::List => {
            let list: Vec<Attribute> = Vec::new();
            assert(attributes_view(list@) == Seq::<AttributeView>::empty());
            Some(AttributeValue::List(list))
        },
        TagType::Unknown => Some(AttributeValue::Null),
    };
    match value {
        Some(v) => Ok((key, v)),
        None => if strict {
            Err(XESParseError { expected, key, value: text })
        } else {
            Ok((key, AttributeValue::Null))
        },
    }
}

/// Reads the key and the value of the attribute that a tag stands for.
pub fn parse_attribute_from_tag(tag: &XmlTag, options: &XESImportOptions) -> (r: Result<
    (String, AttributeValue),
    XESParseError,
>)
    ensures
        attribute_matches(r, attribute_of_tag(tag@, options@)),
{
    let key = tag.field("key");
    let text = tag.field("value");
    let expected = classify_tag(tag.name.as_str());
    let instant = match expected {
        TagType::Date => parse_timestamp(text.as_str(), &options.date_format),
        _ => None,
    };
    let id = match expected {
        TagType::ID => read_uuid(text.as_str()),
        _ => None,
    };
    attribute_from_parts(expected, key, text, instant, id, options.strict)
}

/// The state of the importer between two tokens.
#[derive(Debug)]
pub struct XesParser {
    /// Where in the document the importer stands.
    pub mode: Mode,
    /// Where it stood before it entered the outermost open attribute, or a
    /// declaration of global attributes.
    pub remembered: Mode,
    /// What the declaration of global attributes that was entered last is
    /// about.
    pub scope: GlobalScope,
    /// What has been read of the log.
    pub log: EventLog,
    /// The attributes that are open, the innermost last.
    pub nested: Vec<Attribute>,
    pub options: XESImportOptions,
}

/// The state of the importer between two tokens.
pub struct ParserView {
    pub mode: Mode,
    pub remembered: Mode,
    pub scope: GlobalScope,
    pub log: EventLogView,
    pub nested: Seq<AttributeView>,
}

impl View for XesParser {
    type V = ParserView;

    open spec fn view(&self) -> ParserView {
        ParserView {
            mode: self.mode,
            remembered: self.remembered,
            scope: self.scope,
            log: self.log@,
            nested: attributes_view(self.nested@),
        }
    }
}

/// An attribute with nothing attached to it.
pub open spec fn plain_attribute(key: Seq<char>, value: ValueView) -> AttributeView {
    AttributeView { key, value, own_attributes: None }
}

/// An attribute that is open to take attributes of its own.
pub open spec fn open_attribute(key: Seq<char>, value: ValueView) -> AttributeView {
    AttributeView { key, value, own_attributes: Some(Seq::empty()) }
}

/// The log with one more trace, which is empty.
pub open spec fn with_new_trace(log: EventLogView) -> EventLogView {
    EventLogView {
        traces: log.traces.push(TraceView { attributes: Seq::empty(), events: Seq::empty() }),
        ..log
    }
}

/// The log with one more event, which is empty, in its last trace. A log
/// without a trace stays as it is.
pub open spec fn with_new_event(log: EventLogView) -> EventLogView {
    if log.traces.len() == 0 {
        log
    } else {
        let trace = log.traces.last();
        EventLogView {
            traces: log.traces.drop_last().push(
                TraceView {
                    attributes: trace.attributes,
                    events: trace.events.push(EventView { attributes: Seq::empty() }),
                },
            ),
            ..log
        }
    }
}

/// The log with `a` among the attributes of its last trace. A log without a
/// trace stays as it is.
pub open spec fn with_trace_attribute(log: EventLogView, a: AttributeView) -> EventLogView {
    if log.traces.len() == 0 {
        log
    } else {
        let trace = log.traces.last();
        EventLogView {
            traces: log.traces.drop_last().push(
                TraceView {
                    attributes: with_attribute(trace.attributes, a),
                    events: trace.events,
                },
            ),
            ..log
        }
    }
}

/// The log with `a` among the attributes of the last event of its last
/// trace. A log without a trace, or whose last trace has no event, stays as
/// it is.
pub open spec fn with_event_attribute(log: EventLogView, a: AttributeView) -> EventLogView {
    if log.traces.len() == 0 || log.traces.last().events.len() == 0 {
        log
    } else {
        let trace = log.traces.last();
        let event = trace.events.last();
        EventLogView {
            traces: log.traces.drop_last().push(
                TraceView {
                    attributes: trace.attributes,
                    events: trace.events.drop_last().push(
                        EventView { attributes: with_attribute(event.attributes, a) },
                    ),
                },
            ),
            ..log
        }
    }
}

/// The log with `a` among the attributes that the mode selects: those of the
/// last trace, of the last event, or of the log itself. In the other modes
/// the attribute is dropped.
pub open spec fn with_target_attribute(log: EventLogView, mode: Mode, a: AttributeView)
    -> EventLogView {
    match mode {
        Mode::Trace => with_trace_attribute(log, a),
        Mode::Event => with_event_attribute(log, a),
        Mode::Log => EventLogView { attributes: with_attribute(log.attributes, a), ..log },
        _ => log,
    }
}

/// The log with `a` among its global attributes: among those for traces or
/// those for events, as the scope says. Where the scope is not known the
/// attribute is dropped.
pub open spec fn with_global_attribute(log: EventLogView, scope: GlobalScope, a: AttributeView)
    -> EventLogView {
    match scope {
        GlobalScope::Trace => EventLogView {
            global_trace_attrs: with_attribute(log.global_trace_attrs, a),
            ..log
        },
        GlobalScope::Event => EventLogView {
            global_event_attrs: with_attribute(log.global_event_attrs, a),
            ..log
        },
        GlobalScope::Unknown => log,
    }
}

/// The log with an attribute that was open and is closed now: among the
/// global attributes where it was opened inside a declaration of global
/// attributes, and else where the mode says in which it was opened.
pub open spec fn with_closed_attribute(
    log: EventLogView,
    mode: Mode,
    scope: GlobalScope,
    a: AttributeView,
) -> EventLogView {
    if mode == Mode::Global {
        with_global_attribute(log, scope, a)
    } else {
        with_target_attribute(log, mode, a)
    }
}

/// What a declaration of global attributes is about, by what its tag has
/// under `scope`.
pub open spec fn scope_of_tag(tag: TagView) -> GlobalScope {
    let scope = tag_field(tag.attributes, "scope"@, 0);
    if scope == "trace"@ {
        GlobalScope::Trace
    } else if scope == "event"@ {
        GlobalScope::Event
    } else {
        GlobalScope::Unknown
    }
}

/// The attribute with `child` among the attributes that are attached to it.
pub open spec fn with_own_attribute(parent: AttributeView, child: AttributeView) -> AttributeView {
    AttributeView {
        own_attributes: Some(
            with_attribute(
                match parent.own_attributes {
                    Some(own) => own,
                    None => Seq::empty(),
                },
                child,
            ),
        ),
        ..parent
    }
}

/// The open attribute with `child` in it: at the end of a list, by key in a
/// container, and attached to an attribute of any other value, whose own
/// value stays.
pub open spec fn with_child(parent: AttributeView, child: AttributeView) -> AttributeView {
    match parent.value {
        ValueView::List(l) => AttributeView { value: ValueView::List(l.push(child)), ..parent },
        ValueView::Container(c) => AttributeView {
            value: ValueView::Container(with_attribute(c, child)),
            ..parent
        },
        _ => with_own_attribute(parent, child),
    }
}

/// The log with one more extension.
pub open spec fn with_extension(log: EventLogView, e: ExtensionView) -> EventLogView {
    EventLogView {
        extensions: Some(
            match log.extensions {
                Some(x) => x.push(e),
                None => seq![e],
            },
        ),
        ..log
    }
}

/// The log with one more classifier.
pub open spec fn with_classifier(log: EventLogView, c: ClassifierView) -> EventLogView {
    EventLogView {
        classifiers: Some(
            match log.classifiers {
                Some(x) => x.push(c),
                None => seq![c],
            },
        ),
        ..log
    }
}

/// The extension that a tag declares.
pub open spec fn extension_of_tag(tag: TagView) -> ExtensionView {
    ExtensionView {
        name: tag_field(tag.attributes, "name"@, 0),
        prefix: tag_field(tag.attributes, "prefix"@, 0),
        uri: tag_field(tag.attributes, "uri"@, 0),
    }
}

/// The classifier that a tag declares: its keys are what stands between the
/// spaces of the tag's `keys`.
pub open spec fn classifier_of_tag(tag: TagView) -> ClassifierView {
    ClassifierView {
        name: tag_field(tag.attributes, "name"@, 0),
        keys: split_on(tag_field(tag.attributes, "keys"@, 0), ' '),
    }
}

/// The state at the start of a document.
pub open spec fn initial_state() -> ParserView {
    ParserView {
        mode: Mode::Log,
        remembered: Mode::Log,
        scope: GlobalScope::Unknown,
        log: EventLogView::empty(),
        nested: Seq::empty(),
    }
}

/// The state after an opening tag.
///
/// `trace` and `event` start a new trace and a new event; `global` is
/// entered with the mode remembered and the scope taken from the tag; `log`
/// changes nothing. Any other tag
/// opens an attribute, unless it has neither a key nor a value; the mode is
/// remembered where the attribute is the outermost one.
pub open spec fn after_start(s: ParserView, tag: TagView, options: OptionsView) -> Result<
    ParserView,
    ParseErrorView,
> {
    if tag.name == "trace"@ {
        Ok(ParserView { mode: Mode::Trace, log: with_new_trace(s.log), ..s })
    } else if tag.name == "event"@ {
        Ok(ParserView { mode: Mode::Event, log: with_new_event(s.log), ..s })
    } else if tag.name == "global"@ {
        Ok(ParserView { mode: Mode::Global, remembered: s.mode, scope: scope_of_tag(tag), ..s })
    } else if tag.name == "log"@ {
        Ok(s)
    } else {
        match attribute_of_tag(tag, options) {
            Err(e) => Err(e),
            Ok(a) => if a.0.len() == 0 && a.1 is Null {
                Ok(s)
            } else {
                Ok(
                    ParserView {
                        mode: Mode::Attribute,
                        remembered: if s.mode == Mode::Attribute {
                            s.remembered
                        } else {
                            s.mode
                        },
                        nested: s.nested.push(open_attribute(a.0, a.1)),
                        ..s
                    },
                )
            },
        }
    }
}

/// The state with `a` put where the mode says: into the innermost open
/// attribute, or among the attributes of the last trace, of the last event
/// or of the log. For the mode of a declaration of global attributes, and
/// where there is nothing to put it into, nothing changes.
pub open spec fn with_attribute_in_mode(s: ParserView, a: AttributeView) -> ParserView {
    match s.mode {
        Mode::Attribute => if s.nested.len() == 0 {
            s
        } else {
            ParserView { nested: s.nested.drop_last().push(with_child(s.nested.last(), a)), ..s }
        },
        Mode::Global => s,
        m => ParserView { log: with_target_attribute(s.log, m, a), ..s },
    }
}

/// The state after a tag that opens and closes at once: an extension, a
/// classifier, or else an attribute. Inside a declaration of global
/// attributes the attribute goes among the global attributes of its scope.
pub open spec fn after_empty(s: ParserView, tag: TagView, options: OptionsView) -> Result<
    ParserView,
    ParseErrorView,
> {
    if tag.name == "extension"@ {
        Ok(ParserView { log: with_extension(s.log, extension_of_tag(tag)), ..s })
    } else if tag.name == "classifier"@ {
        Ok(ParserView { log: with_classifier(s.log, classifier_of_tag(tag)), ..s })
    } else {
        match attribute_of_tag(tag, options) {
            Err(e) => Err(e),
            Ok(a) => if s.mode == Mode::Global {
                Ok(
                    ParserView {
                        log: with_global_attribute(s.log, s.scope, plain_attribute(a.0, a.1)),
                        ..s
                    },
                )
            } else {
                Ok(with_attribute_in_mode(s, plain_attribute(a.0, a.1)))
            },
        }
    }
}

/// The state after the closing tag of an attribute. The innermost open
/// attribute is closed: it is attached to the one that is open around it,
/// or else goes where the remembered mode says, and the importer is back in
/// that mode. Where no attribute is open, only the mode goes back.
pub open spec fn after_attribute_end(s: ParserView) -> ParserView {
    if s.nested.len() == 0 {
        ParserView { mode: s.remembered, ..s }
    } else {
        let closed = s.nested.last();
        let rest = s.nested.drop_last();
        if rest.len() > 0 {
            ParserView {
                nested: rest.drop_last().push(with_own_attribute(rest.last(), closed)),
                ..s
            }
        } else {
            ParserView {
                mode: s.remembered,
                log: with_closed_attribute(s.log, s.remembered, s.scope, closed),
                nested: rest,
                ..s
            }
        }
    }
}

/// The state after a closing tag.
pub open spec fn after_end(s: ParserView, name: Seq<char>) -> ParserView {
    if name == "event"@ {
        ParserView { mode: Mode::Trace, ..s }
    } else if name == "trace"@ || name == "log"@ {
        ParserView { mode: Mode::Log, ..s }
    } else if name == "global"@ {
        ParserView { mode: s.remembered, ..s }
    } else if s.mode == Mode::Attribute {
        after_attribute_end(s)
    } else {
        ParserView { mode: Mode::Log, ..s }
    }
}

/// The state after a token. Text, comments and the like, pieces that are
/// not well-formed and the end of the document change nothing.
pub open spec fn after_token(s: ParserView, token: TokenView, options: OptionsView) -> Result<
    ParserView,
    ParseErrorView,
> {
    match token {
        TokenView::Start(tag) => after_start(s, tag, options),
        TokenView::Empty(tag) => after_empty(s, tag, options),
        TokenView::End(name) => Ok(after_end(s, name)),
        _ => Ok(s),
    }
}

/// The state after a run of tokens, or the first error on the way.
pub open spec fn after_tokens(s: ParserView, tokens: Seq<TokenView>, options: OptionsView)
    -> Result<ParserView, ParseErrorView>
    decreases tokens.len(),
{
    if tokens.len() == 0 {
        Ok(s)
    } else {
        match after_tokens(s, tokens.drop_last(), options) {
            Ok(m) => after_token(m, tokens.last(), options),
            Err(e) => Err(e),
        }
    }
}

fn push_trace(log: &mut EventLog)
    ensures
        final(log)@ == with_new_trace(old(log)@),
{
    let trace = Trace::new();
    proof {
        lemma_traces_view_push(log.traces@, trace);
    }
    log.traces.push(trace);
}

fn push_event(log: &mut EventLog)
    ensures
        final(log)@ == with_new_event(old(log)@),
{
    if log.traces.len() > 0 {
        proof {
            lemma_traces_view_drop_last(log.traces@);
        }
        let mut trace = log.traces.pop().unwrap();
        let event = Event::new();
        proof {
            lemma_events_view_push(trace.events@, event);
        }
        trace.events.push(event);
        proof {
            lemma_traces_view_push(log.traces@, trace);
        }
        log.traces.push(trace);
    }
}

fn add_trace_attribute(log: &mut EventLog, a: Attribute)
    ensures
        final(log)@ == with_trace_attribute(old(log)@, a@),
{
    if log.traces.len() > 0 {
        proof {
            lemma_traces_view_drop_last(log.traces@);
        }
        let mut trace = log.traces.pop().unwrap();
        trace.attributes.insert(a);
        proof {
            lemma_traces_view_push(log.traces@, trace);
        }
        log.traces.push(trace);
    }
}

fn add_event_attribute(log: &mut EventLog, a: Attribute)
    ensures
        final(log)@ == with_event_attribute(old(log)@, a@),
{
    if log.traces.len() > 0 {
        proof {
            lemma_traces_view_drop_last(log.traces@);
        }
        let mut trace = log.traces.pop().unwrap();
        if trace.events.len() > 0 {
            proof {
                lemma_events_view_drop_last(trace.events@);
            }
            let mut event = trace.events.pop().unwrap();
            event.attributes.insert(a);
            proof {
                lemma_events_view_push(trace.events@, event);
            }
            trace.events.push(event);
        }
        proof {
            lemma_traces_view_push(log.traces@, trace);
            let before = traces_view(old(log).traces@);
            assert(before.drop_last().push(before.last()) == before);
        }
        log.traces.push(trace);
    }
}

/// Puts an attribute among those that the mode selects: those of the last
/// trace, of the last event, or of the log itself. In the other modes, and
/// where there is no such trace or event, the attribute is dropped.
pub fn add_target_attribute(log: &mut EventLog, mode: Mode, a: Attribute)
    ensures
        final(log)@ == with_target_attribute(old(log)@, mode, a@),
{
    match mode {
        Mode::Trace => add_trace_attribute(log, a),
        Mode::Event => add_event_attribute(log, a),
        Mode::Log => log.attributes.insert(a),
        _ => {},
    }
}

/// Puts an attribute among the global attributes of the given scope.
pub fn add_global_attribute(log: &mut EventLog, scope: GlobalScope, a: Attribute)
    ensures
        final(log)@ == with_global_attribute(old(log)@, scope, a@),
{
    match scope {
        GlobalScope::Trace => log.global_trace_attrs.insert(a),
        GlobalScope::Event => log.global_event_attrs.insert(a),
        GlobalScope::Unknown => {},
    }
}

/// Tells what a declaration of global attributes is about.
pub fn scope_from_tag(tag: &XmlTag) -> (r: GlobalScope)
    ensures
        r == scope_of_tag(tag@),
{
    let scope = tag.field("scope");
    if str_eq(scope.as_str(), "trace") {
        GlobalScope::Trace
    } else if str_eq(scope.as_str(), "event") {
        GlobalScope::Event
    } else {
        GlobalScope::Unknown
    }
}

/// Attaches `child` to `parent`.
pub fn attach_own(parent: Attribute, child: Attribute) -> (r: Attribute)
    ensures
        r@ == with_own_attribute(parent@, child@),
{
    let Attribute { key, value, own_attributes } = parent;
    let mut own = match own_attributes {
        Some(own) => own,
        None => Attributes::new(),
    };
    own.insert(child);
    Attribute { key, value, own_attributes: Some(own) }
}

/// Puts `child` into the open attribute `parent`: at the end of a list, by
/// key into a container, and else among the attributes attached to it.
pub fn attach_child(parent: Attribute, child: Attribute) -> (r: Attribute)
    ensures
        r@ == with_child(parent@, child@),
{
    let Attribute { key, value, own_attributes } = parent;
    match value {
        AttributeValue::List(mut l) => {
            proof {
                lemma_attributes_view_push(l@, child);
            }
            l.push(child);
            Attribute { key, value: AttributeValue::List(l), own_attributes }
        },
        AttributeValue::Container(mut c) => {
            c.insert(child);
            Attribute { key, value: AttributeValue::Container(c), own_attributes }
        },
        other => attach_own(Attribute { key, value: other, own_attributes }, child),
    }
}

/// The state that a mode, a log and the open attributes make up, for a
/// change that looks neither at the remembered mode nor at the scope.
pub open spec fn state_of(mode: Mode, log: EventLog, nested: Vec<Attribute>) -> ParserView {
    ParserView {
        mode,
        remembered: Mode::Log,
        scope: GlobalScope::Unknown,
        log: log@,
        nested: attributes_view(nested@),
    }
}

/// Reads the attribute that a tag stands for and puts it where the mode
/// says: into the innermost open attribute, or among the attributes of the
/// last trace, of the last event or of the log.
pub fn add_attribute_from_tag(
    tag: &XmlTag,
    mode: Mode,
    log: &mut EventLog,
    current_nested_attributes: &mut Vec<Attribute>,
    options: &XESImportOptions,
) -> (r: Result<(), XESParseError>)
    ensures
        match attribute_of_tag(tag@, options@) {
            Ok(a) => r is Ok && state_of(mode, *final(log), *final(current_nested_attributes))
                == with_attribute_in_mode(
                state_of(mode, *old(log), *old(current_nested_attributes)),
                plain_attribute(a.0, a.1),
            ),
            Err(e) => r matches Err(x) && x@ == e && *final(log) == *old(log)
                && *final(current_nested_attributes) == *old(current_nested_attributes),
        },
{
    match parse_attribute_from_tag(tag, options) {
        Err(e) => Err(e),
        Ok(parsed) => {
            let attribute = Attribute::new(parsed.0, parsed.1);
            match mode {
                Mode::Attribute => {
                    if current_nested_attributes.len() > 0 {
                        proof {
                            lemma_attributes_view_drop_last(current_nested_attributes@);
                        }
                        let parent = current_nested_attributes.pop().unwrap();
                        let parent = attach_child(parent, attribute);
                        proof {
                            lemma_attributes_view_push(current_nested_attributes@, parent);
                        }
                        current_nested_attributes.push(parent);
                    }
                },
                Mode::Global => {},
                m => add_target_attribute(log, m, attribute),
            }
            Ok(())
        },
    }
}

/// Makes an extension of what a tag declares.
pub fn extension_from_tag(tag: &XmlTag) -> (r: EventLogExtension)
    ensures
        r@ == extension_of_tag(tag@),
{
    EventLogExtension {
        name: tag.field("name"),
        prefix: tag.field("prefix"),
        uri: tag.field("uri"),
    }
}

/// Makes a classifier of what a tag declares.
pub fn classifier_from_tag(tag: &XmlTag) -> (r: EventLogClassifier)
    ensures
        r@ == classifier_of_tag(tag@),
{
    let name = tag.field("name");
    let keys_text = tag.field("keys");
    let chars = str_chars(keys_text.as_str());
    let parts = crate::text::split_chars(&chars, ' ');
    let ghost wanted = split_on(chars@, ' ');
    let mut keys: Vec<String> = Vec::new();
    let mut i: usize = 0;
    while i < parts.len()
        invariant
            i <= parts.len(),
            parts@.len() == wanted.len(),
            forall|k: int| 0 <= k < parts@.len() ==> (#[trigger] parts@[k])@ == wanted[k],
            crate::text::names_view(keys@) == wanted.take(i as int),
        decreases parts.len() - i,
    {
        let key = crate::text::chars_to_string(&parts[i]);
        proof {
            crate::text::lemma_names_view_push(keys@, key);
            assert(wanted.take(i + 1) == wanted.take(i as int).push(wanted[i as int]));
        }
        keys.push(key);
        i += 1;
    }
    assert(wanted.take(parts.len() as int) == wanted);
    EventLogClassifier { name, keys }
}

fn push_extension(log: &mut EventLog, e: EventLogExtension)
    ensures
        final(log)@ == with_extension(old(log)@, e@),
{
    let mut taken: Option<Vec<EventLogExtension>> = None;
    std::mem::swap(&mut taken, &mut log.extensions);
    let mut list = match taken {
        Some(list) => list,
        None => Vec::new(),
    };
    let ghost before = list@;
    list.push(e);
    assert(extensions_view(list@) == extensions_view(before).push(e@));
    assert(extensions_view(Seq::<EventLogExtension>::empty()).push(e@) == seq![e@]);
    log.extensions = Some(list);
}

fn push_classifier(log: &mut EventLog, c: EventLogClassifier)
    ensures
        final(log)@ == with_classifier(old(log)@, c@),
{
    let mut taken: Option<Vec<EventLogClassifier>> = None;
    std::mem::swap(&mut taken, &mut log.classifiers);
    let mut list = match taken {
        Some(list) => list,
        None => Vec::new(),
    };
    let ghost before = list@;
    list.push(c);
    assert(classifiers_view(list@) == classifiers_view(before).push(c@));
    assert(classifiers_view(Seq::<EventLogClassifier>::empty()).push(c@) == seq![c@]);
    log.classifiers = Some(list);
}

/// Whether the outcome of a step is the one that `after_token` gives:
/// the new state, or the error with the state as it was.
pub open spec fn step_matches(
    before: ParserView,
    after: ParserView,
    r: Result<(), XESParseError>,
    wanted: Result<ParserView, ParseErrorView>,
) -> bool {
    match wanted {
        Ok(s) => r is Ok && after == s,
        Err(e) => r matches Err(x) && x@ == e && after == before,
    }
}

impl XesParser {
    /// The importer at the start of a document.
    pub fn new(options: XESImportOptions) -> (parser: XesParser)
        ensures
            parser@ == initial_state(),
            parser.options == options,
    {
        let nested: Vec<Attribute> = Vec::new();
        assert(attributes_view(nested@) == Seq::<AttributeView>::empty());
        XesParser {
            mode: Mode::Log,
            remembered: Mode::Log,
            scope: GlobalScope::Unknown,
            log: EventLog::new(),
            nested,
            options,
        }
    }

    /// Takes an opening tag.
    pub fn start_tag(&mut self, tag: &XmlTag) -> (r: Result<(), XESParseError>)
        ensures
            final(self).options == old(self).options,
            step_matches(
                old(self)@,
                final(self)@,
                r,
                after_start(old(self)@, tag@, old(self).options@),
            ),
    {
        let name = str_chars(tag.name.as_str());
        if crate::text::chars_eq_str(&name, "trace") {
            self.mode = Mode::Trace;
            push_trace(&mut self.log);
            Ok(())
        } else if crate::text::chars_eq_str(&name, "event") {
            self.mode = Mode::Event;
            push_event(&mut self.log);
            Ok(())
        } else if crate::text::chars_eq_str(&name, "global") {
            self.remembered = self.mode;
            self.mode = Mode::Global;
            self.scope = scope_from_tag(tag);
            Ok(())
        } else if crate::text::chars_eq_str(&name, "log") {
            Ok(())
        } else {
            match parse_attribute_from_tag(tag, &self.options) {
                Err(e) => Err(e),
                Ok(parsed) => {
                    let (key, value) = parsed;
                    let unset = match value {
                        AttributeValue::Null => true,
                        _ => false,
                    };
                    if !(key.as_str().is_empty() && unset) {
                        let opened = Attribute {
                            key,
                            value,
                            own_attributes: Some(Attributes::new()),
                        };
                        proof {
                            lemma_attributes_view_push(self.nested@, opened);
                        }
                        self.nested.push(opened);
                        match self.mode {
                            Mode::Attribute => {},
                            m => {
                                self.remembered = m;
                            },
                        }
                        self.mode = Mode::Attribute;
                    }
                    Ok(())
                },
            }
        }
    }

    /// Takes a tag that opens and closes at once.
    pub fn empty_tag(&mut self, tag: &XmlTag) -> (r: Result<(), XESParseError>)
        ensures
            final(self).options == old(self).options,
            step_matches(
                old(self)@,
                final(self)@,
                r,
                after_empty(old(self)@, tag@, old(self).options@),
            ),
    {
        let name = str_chars(tag.name.as_str());
        if crate::text::chars_eq_str(&name, "extension") {
            push_extension(&mut self.log, extension_from_tag(tag));
            Ok(())
        } else if crate::text::chars_eq_str(&name, "classifier") {
            push_classifier(&mut self.log, classifier_from_tag(tag));
            Ok(())
        } else {
            match self.mode {
                Mode::Global => match parse_attribute_from_tag(tag, &self.options) {
                    Err(e) => Err(e),
                    Ok(parsed) => {
                        let attribute = Attribute::new(parsed.0, parsed.1);
                        add_global_attribute(&mut self.log, self.scope, attribute);
                        Ok(())
                    },
                },
                mode => add_attribute_from_tag(
                    tag,
                    mode,
                    &mut self.log,
                    &mut self.nested,
                    &self.options,
                ),
            }
        }
    }

    /// Takes a closing tag.
    pub fn end_tag(&mut self, name: &str)
        ensures
            final(self).options == old(self).options,
            final(self)@ == after_end(old(self)@, name@),
    {
        let chars = str_chars(name);
        if crate::text::chars_eq_str(&chars, "event") {
            self.mode = Mode::Trace;
        } else if crate::text::chars_eq_str(&chars, "trace") || crate::text::chars_eq_str(
            &chars,
            "log",
        ) {
            self.mode = Mode::Log;
        } else if crate::text::chars_eq_str(&chars, "global") {
            self.mode = self.remembered;
        } else {
            match self.mode {
                Mode::Attribute => {
                    if self.nested.len() >= 1 {
                        proof {
                            lemma_attributes_view_drop_last(self.nested@);
                        }
                        let closed = self.nested.pop().unwrap();
                        if self.nested.len() >= 1 {
                            proof {
                                lemma_attributes_view_drop_last(self.nested@);
                            }
                            let parent = self.nested.pop().unwrap();
                            let parent = attach_own(parent, closed);
                            proof {
                                lemma_attributes_view_push(self.nested@, parent);
                            }
                            self.nested.push(parent);
                        } else {
                            match self.remembered {
                                Mode::Global => add_global_attribute(
                                    &mut self.log,
                                    self.scope,
                                    closed,
                                ),
                                mode => add_target_attribute(&mut self.log, mode, closed),
                            }
                            self.mode = self.remembered;
                        }
                    } else {
                        self.mode = self.remembered;
                    }
                },
                _ => {
                    self.mode = Mode::Log;
                },
            }
        }
    }

    /// Takes the next token of the document.
    pub fn step(&mut self, token: &XmlToken) -> (r: Result<(), XESParseError>)
        ensures
            final(self).options == old(self).options,
            step_matches(
                old(self)@,
                final(self)@,
                r,
                after_token(old(self)@, token@, old(self).options@),
            ),
    {
        match token {
            XmlToken::Start(tag) => self.start_tag(tag),
            XmlToken::Empty(tag) => self.empty_tag(tag),
            XmlToken::End(name) => {
                self.end_tag(name.as_str());
                Ok(())
            },
            _ => Ok(()),
        }
    }

    /// The log that has been read.
    pub fn finish(self) -> (log: EventLog)
        ensures
            log@ == self@.log,
    {
        self.log
    }
}

/// Something in the document that the importer passes over and that is
/// worth telling.
#[derive(Debug)]
pub enum ImportNote {
    /// A tag that stands for an attribute of a type that is not known, read
    /// in the given mode. The attribute has no value.
    UnknownType(String, Mode),
    /// A closing tag for an attribute, where none is open.
    NoOpenAttribute,
}

/// Something worth telling, with texts.
pub enum NoteView {
    UnknownType(Seq<char>, Mode),
    NoOpenAttribute,
}

impl View for ImportNote {
    type V = NoteView;

    open spec fn view(&self) -> NoteView {
        match self {
            ImportNote::UnknownType(name, mode) => NoteView::UnknownType(name@, *mode),
            ImportNote::NoOpenAttribute => NoteView::NoOpenAttribute,
        }
    }
}

/// Whether a tag of this name stands for an attribute: where it opens, and
/// where it opens and closes at once.
pub open spec fn stands_for_attribute(name: Seq<char>, empty: bool) -> bool {
    if empty {
        name != "extension"@ && name != "classifier"@
    } else {
        name != "trace"@ && name != "event"@ && name != "global"@ && name != "log"@
    }
}

/// What is worth telling of a token that comes in the given state: a tag for
/// an attribute of a type that is not known, unless it stands at the level
/// of the log, and a closing tag for an attribute where none is open.
pub open spec fn note_of(s: ParserView, token: TokenView) -> Option<NoteView> {
    match token {
        TokenView::Start(tag) => if stands_for_attribute(tag.name, false) && tag_type(tag.name)
            == TagType::Unknown && s.mode != Mode::Log {
            Some(NoteView::UnknownType(tag.name, s.mode))
        } else {
            None
        },
        TokenView::Empty(tag) => if stands_for_attribute(tag.name, true) && tag_type(tag.name)
            == TagType::Unknown && s.mode != Mode::Log {
            Some(NoteView::UnknownType(tag.name, s.mode))
        } else {
            None
        },
        TokenView::End(name) => if closes_attribute(name) && s.mode == Mode::Attribute
            && s.nested.len() == 0 {
            Some(NoteView::NoOpenAttribute)
        } else {
            None
        },
        _ => None,
    }
}

impl XesParser {
    fn note_of_tag(&self, tag: &XmlTag, empty: bool) -> (r: Option<ImportNote>)
        ensures
            match r {
                Some(n) => note_of(
                    self@,
                    if empty {
                        TokenView::Empty(tag@)
                    } else {
                        TokenView::Start(tag@)
                    },
                ) == Some(n@),
                None => note_of(
                    self@,
                    if empty {
                        TokenView::Empty(tag@)
                    } else {
                        TokenView::Start(tag@)
                    },
                ) is None,
            },
    {
        let name = tag.name.as_str();
        let for_attribute = if empty {
            !str_eq(name, "extension") && !str_eq(name, "classifier")
        } else {
            !str_eq(name, "trace") && !str_eq(name, "event") && !str_eq(name, "global") && !str_eq(
                name,
                "log",
            )
        };
        let at_log_level = match self.mode {
            Mode::Log => true,
            _ => false,
        };
        let unknown = match classify_tag(name) {
            TagType::Unknown => true,
            _ => false,
        };
        if for_attribute && unknown && !at_log_level {
            Some(ImportNote::UnknownType(tag.name.clone(), self.mode))
        } else {
            None
        }
    }

    /// Tells what is worth telling of the token that comes next, before it
    /// is taken.
    pub fn note(&self, token: &XmlToken) -> (r: Option<ImportNote>)
        ensures
            match r {
                Some(n) => note_of(self@, token@) == Some(n@),
                None => note_of(self@, token@) is None,
            },
    {
        match token {
            XmlToken::Start(tag) => self.note_of_tag(tag, false),
            XmlToken::Empty(tag) => self.note_of_tag(tag, true),
            XmlToken::End(name) => {
                let name = name.as_str();
                let for_attribute = !str_eq(name, "event") && !str_eq(name, "trace") && !str_eq(
                    name,
                    "log",
                ) && !str_eq(name, "global");
                let in_attribute = match self.mode {
                    Mode::Attribute => true,
                    _ => false,
                };
                if for_attribute && in_attribute && self.nested.len() == 0 {
                    Some(ImportNote::NoOpenAttribute)
                } else {
                    None
                }
            },
            _ => None,
        }
    }
}

/// What a run of tokens holds.
pub open spec fn tokens_view(tokens: Seq<XmlToken>) -> Seq<TokenView> {
    Seq::new(tokens.len(), |i: int| tokens[i]@)
}

/// Whether the outcome of an import is the wanted one: the log of the last
/// state, or the error.
pub open spec fn import_matches(
    r: Result<EventLog, XESParseError>,
    wanted: Result<ParserView, ParseErrorView>,
) -> bool {
    match wanted {
        Ok(s) => r matches Ok(log) && log@ == s.log,
        Err(e) => r matches Err(x) && x@ == e,
    }
}

/// Imports an event log from the tokens of an XES document, in one pass.
/// The traces, and the events of each trace, are in the order of the
/// document. The first value that does not fit the type of its tag ends a
/// strict import with an error.
pub fn import_xes(tokens: &Vec<XmlToken>, options: XESImportOptions) -> (r: Result<
    EventLog,
    XESParseError,
>)
    ensures
        import_matches(r, after_tokens(initial_state(), tokens_view(tokens@), options@)),
{
    let ghost all = tokens_view(tokens@);
    let ghost how = options@;
    let mut parser = XesParser::new(options);
    let mut i: usize = 0;
    assert(all.take(0) == Seq::<TokenView>::empty());
    while i < tokens.len()
        invariant
            i <= tokens.len(),
            all == tokens_view(tokens@),
            how == options@,
            parser.options@ == how,
            after_tokens(initial_state(), all.take(i as int), how) == Ok::<
                ParserView,
                ParseErrorView,
            >(parser@),
        decreases tokens.len() - i,
    {
        proof {
            assert(all.take(i + 1).drop_last() == all.take(i as int));
            assert(all.take(i + 1).last() == tokens@[i as int]@);
        }
        match parser.step(&tokens[i]) {
            Ok(()) => {},
            Err(e) => {
                proof {
                    assert(after_tokens(initial_state(), all.take(i + 1), how) is Err);
                    assert(all.take(i + 1) == all.take((i + 1) as int));
                    lemma_error_stays(initial_state(), all.take(i + 1), all, how);
                }
                return Err(e);
            },
        }
        i += 1;
    }
    assert(all.take(tokens.len() as int) == all);
    Ok(parser.finish())
}

/// Once a run of tokens has ended in an error, the error stays however the
/// run goes on.
pub proof fn lemma_error_stays(
    s: ParserView,
    first: Seq<TokenView>,
    all: Seq<TokenView>,
    options: OptionsView,
)
    requires
        first.len() <= all.len(),
        first == all.take(first.len() as int),
        after_tokens(s, first, options) is Err,
    ensures
        after_tokens(s, all, options) == after_tokens(s, first, options),
    decreases all.len(),
{
    if first.len() < all.len() {
        assert(all.drop_last().take(first.len() as int) == first);
        lemma_error_stays(s, first, all.drop_last(), options);
    } else {
        assert(all.take(all.len() as int) == all);
    }
}

/// Whether the import of a text takes the tokens of its first `m` reads
/// without an error.
pub open spec fn takes(text: Seq<char>, m: nat, options: OptionsView) -> bool {
    after_tokens(initial_state(), document_tokens(text, m), options) is Ok
}

/// Whether the import of a text ends with its `n`-th read: `n` is one or
/// more, after every read before it the import took the token and reading
/// went on, and after it reading does not go on or the token is not taken.
pub open spec fn ends_at(text: Seq<char>, n: nat, options: OptionsView) -> bool {
    &&& n > 0
    &&& forall|m: nat| 0 < m < n ==> #[trigger] takes(text, m, options) && goes_on_after(text, m)
    &&& !takes(text, n, options) || !goes_on_after(text, n)
}

/// Whether `r` is the outcome of importing a text whose import ends with its
/// `n`-th read: what `import_xes` gives for the tokens of the first `n`
/// reads.
pub open spec fn imports_document(
    r: Result<EventLog, XESParseError>,
    text: Seq<char>,
    n: nat,
    options: OptionsView,
) -> bool {
    &&& ends_at(text, n, options)
    &&& import_matches(r, after_tokens(initial_state(), document_tokens(text, n), options))
}

/// The import of a text ends with one read only.
pub proof fn lemma_end_is_unique(text: Seq<char>, n1: nat, n2: nat, options: OptionsView)
    requires
        ends_at(text, n1, options),
        ends_at(text, n2, options),
    ensures
        n1 == n2,
{
    if n1 < n2 {
        assert(takes(text, n1, options) && goes_on_after(text, n1));
    } else if n2 < n1 {
        assert(takes(text, n2, options) && goes_on_after(text, n2));
    }
}

/// Two imports of one text under the same options give the same: the same
/// log, or the same error.
pub proof fn lemma_import_is_a_function_of_the_text(
    r1: Result<EventLog, XESParseError>,
    r2: Result<EventLog, XESParseError>,
    text: Seq<char>,
    n1: nat,
    n2: nat,
    options: OptionsView,
)
    requires
        imports_document(r1, text, n1, options),
        imports_document(r2, text, n2, options),
    ensures
        n1 == n2,
        r1 is Ok <==> r2 is Ok,
        r1 is Ok ==> r1->Ok_0@ == r2->Ok_0@,
        r1 is Err ==> r1->Err_0@ == r2->Err_0@,
{
    lemma_end_is_unique(text, n1, n2, options);
}

/// Imports an event log from the text of an XES document, in one pass.
///
/// The result is what `import_xes` gives for the tokens of the document, in
/// the order in which they are read, up to and with the end of the
/// document. Reading ends before that with the first value that does not fit
/// the type of its tag, where the import is strict, and with the first read
/// by which the reader of the document does not get ahead; the log then
/// holds what was read so far.
pub fn import_xes_str(xes_str: &str, options: XESImportOptions) -> (r: Result<
    EventLog,
    XESParseError,
>)
    ensures
        exists|n: nat| #[trigger] imports_document(r, xes_str@, n, options@),
{
    let ghost how = options@;
    let ghost text = xes_str@;
    let mut parser = XesParser::new(options);
    let mut reader = TokenReader::new(xes_str);
    let mut last: u64 = reader.position();
    let mut open = true;
    let ghost mut n: nat = 0;
    assert(document_tokens(text, 0) == Seq::<TokenView>::empty());
    while open
        invariant
            how == options@,
            text == xes_str@,
            parser.options@ == how,
            forall|k: nat|
                #[trigger] reader.token(k) == token_of_raw(document_item(text, n + k)),
            forall|k: nat| #[trigger] reader.offset(k) == document_offset(text, n + k),
            after_tokens(initial_state(), document_tokens(text, n), how) == Ok::<
                ParserView,
                ParseErrorView,
            >(parser@),
            forall|m: nat| 0 < m < n ==> #[trigger] takes(text, m, how) && goes_on_after(text, m),
            open ==> last == document_offset(text, n),
            open && n > 0 ==> goes_on_after(text, n),
            !open ==> n > 0 && !goes_on_after(text, n),
        decreases
                if open {
                    u64::MAX - last + 1
                } else {
                    0
                },
    {
        let ghost before = document_tokens(text, n);
        let token = reader.next_token();
        let position = reader.position();
        proof {
            let now = document_tokens(text, n + 1);
            assert(token@ == token_of_raw(document_item(text, n + 0)));
            assert(position == document_offset(text, n + 1 + 0));
            assert(now.drop_last() == before);
            assert(now.last() == token@);
            assert forall|k: nat| #[trigger]
                reader.token(k) == token_of_raw(document_item(text, n + 1 + k)) by {
                assert(n + (k + 1) == n + 1 + k);
            }
            assert forall|k: nat| #[trigger]
                reader.offset(k) == document_offset(text, n + 1 + k) by {
                assert(n + (k + 1) == n + 1 + k);
            }
            assert forall|m: nat| 0 < m < n + 1 implies #[trigger] takes(text, m, how)
                && goes_on_after(text, m) by {
                if m == n {
                    assert(takes(text, n, how));
                }
            }
            n = n + 1;
        }
        match parser.step(&token) {
            Ok(()) => {},
            Err(e) => {
                assert(!takes(text, n, how));
                assert(imports_document(Err(e), text, n, how));
                return Err(e);
            },
        }
        if reading_goes_on(&token, position, last) {
            last = position;
        } else {
            open = false;
        }
    }
    let log = parser.finish();
    assert(imports_document(Ok(log), text, n, how));
    Ok(log)
}

/// Whether a closing tag of this name closes an attribute.
pub open spec fn closes_attribute(name: Seq<char>) -> bool {
    name != "event"@ && name != "trace"@ && name != "log"@ && name != "global"@
}

/// A closing tag for an attribute where none is open loses nothing: the log
/// and the open attributes stay as they are, and the importer goes back to
/// the mode it remembers.
pub proof fn lemma_stray_attribute_end(s: ParserView, name: Seq<char>, options: OptionsView)
    requires
        s.mode == Mode::Attribute,
        s.nested.len() == 0,
        closes_attribute(name),
    ensures
        after_token(s, TokenView::End(name), options) == Ok::<ParserView, ParseErrorView>(
            ParserView { mode: s.remembered, ..s },
        ),
{
}

/// An attribute that is read inside a declaration of global attributes for
/// events is found among the global attributes for events afterwards, under
/// its key; likewise one for traces. Nothing else of the log changes.
pub proof fn lemma_global_attribute_is_stored(s: ParserView, tag: TagView, options: OptionsView)
    requires
        s.mode == Mode::Global,
        tag.name != "extension"@,
        tag.name != "classifier"@,
        attribute_of_tag(tag, options) is Ok,
    ensures
        ({
            let a = attribute_of_tag(tag, options)->Ok_0;
            let stored = plain_attribute(a.0, a.1);
            let after = after_token(s, TokenView::Empty(tag), options)->Ok_0;
            &&& after_token(s, TokenView::Empty(tag), options) is Ok
            &&& after.mode == Mode::Global
            &&& after.log.traces == s.log.traces
            &&& after.log.attributes == s.log.attributes
            &&& s.scope == GlobalScope::Event ==> crate::event_log_struct::lookup(
                after.log.global_event_attrs,
                a.0,
            ) == Some(stored) && after.log.global_trace_attrs == s.log.global_trace_attrs
            &&& s.scope == GlobalScope::Trace ==> crate::event_log_struct::lookup(
                after.log.global_trace_attrs,
                a.0,
            ) == Some(stored) && after.log.global_event_attrs == s.log.global_event_attrs
            &&& s.scope == GlobalScope::Unknown ==> after.log == s.log
        }),
{
    let a = attribute_of_tag(tag, options)->Ok_0;
    let stored = plain_attribute(a.0, a.1);
    crate::event_log_struct::lemma_lookup_after_adding(s.log.global_event_attrs, stored, a.0);
    crate::event_log_struct::lemma_lookup_after_adding(s.log.global_trace_attrs, stored, a.0);
}

/// A token that is no tag changes nothing.
pub proof fn lemma_other_tokens_change_nothing(s: ParserView, options: OptionsView)
    ensures
        after_token(s, TokenView::Malformed, options) == Ok::<ParserView, ParseErrorView>(s),
        after_token(s, TokenView::Other, options) == Ok::<ParserView, ParseErrorView>(s),
        after_token(s, TokenView::Eof, options) == Ok::<ParserView, ParseErrorView>(s),
{
}

/// An import that is not strict takes every token.
pub proof fn lemma_lenient_step_never_fails(s: ParserView, token: TokenView, options: OptionsView)
    requires
        !options.strict,
    ensures
        after_token(s, token, options) is Ok,
{
}

/// An import that is not strict takes every run of tokens.
pub proof fn lemma_lenient_import_never_fails(
    s: ParserView,
    tokens: Seq<TokenView>,
    options: OptionsView,
)
    requires
        !options.strict,
    ensures
        after_tokens(s, tokens, options) is Ok,
    decreases tokens.len(),
{
    if tokens.len() > 0 {
        lemma_lenient_import_never_fails(s, tokens.drop_last(), options);
        lemma_lenient_step_never_fails(
            after_tokens(s, tokens.drop_last(), options)->Ok_0,
            tokens.last(),
            options,
        );
    }
}

/// A strict import fails at a tag only where the text of the tag is no value
/// of the type that the tag names; the error tells the type, the key and
/// the text.
pub proof fn lemma_strict_failure(s: ParserView, token: TokenView, options: OptionsView)
    requires
        after_token(s, token, options) is Err,
    ensures
        options.strict,
        token is Start || token is Empty,
        ({
            let tag = if token is Start {
                token->Start_0
            } else {
                token->Empty_0
            };
            let text = tag_field(tag.attributes, "value"@, 0);
            &&& typed_value(
                tag_type(tag.name),
                text,
                instant_of_text(text, options.date_format),
                uuid_value(text),
            ) is None
            &&& after_token(s, token, options)->Err_0 == (ParseErrorView {
                expected: tag_type(tag.name),
                key: tag_field(tag.attributes, "key"@, 0),
                value: text,
            })
        }),
{
}

/// A step never takes a trace away, and leaves every trace but the last as
/// it is: the traces are in the order of the document.
pub proof fn lemma_earlier_traces_stay(
    s: ParserView,
    token: TokenView,
    options: OptionsView,
    i: int,
)
    requires
        after_token(s, token, options) is Ok,
        0 <= i < s.log.traces.len() - 1,
    ensures
        after_token(s, token, options)->Ok_0.log.traces.len() >= s.log.traces.len(),
        after_token(s, token, options)->Ok_0.log.traces[i] == s.log.traces[i],
{
}

/// A step never takes an event away from the last trace, and leaves every
/// event of it but the last as it is: the events of a trace are in the
/// order of the document.
pub proof fn lemma_earlier_events_stay(
    s: ParserView,
    token: TokenView,
    options: OptionsView,
    e: int,
)
    requires
        after_token(s, token, options) is Ok,
        s.log.traces.len() > 0,
        after_token(s, token, options)->Ok_0.log.traces.len() == s.log.traces.len(),
        0 <= e < s.log.traces.last().events.len() - 1,
    ensures
        after_token(s, token, options)->Ok_0.log.traces.last().events.len()
            >= s.log.traces.last().events.len(),
        after_token(s, token, options)->Ok_0.log.traces.last().events[e]
            == s.log.traces.last().events[e],
{
}

/// Taking a run of tokens in two parts gives what taking it at once gives.
pub proof fn lemma_after_tokens_in_two_runs(
    s: ParserView,
    first: Seq<TokenView>,
    rest: Seq<TokenView>,
    options: OptionsView,
)
    ensures
        after_tokens(s, first + rest, options) == match after_tokens(s, first, options) {
            Ok(m) => after_tokens(m, rest, options),
            Err(e) => Err(e),
        },
    decreases rest.len(),
{
    if rest.len() == 0 {
        assert(first + rest == first);
    } else {
        lemma_after_tokens_in_two_runs(s, first, rest.drop_last(), options);
        assert((first + rest).drop_last() == first + rest.drop_last());
        assert((first + rest).last() == rest.last());
    }
}

/// Taking a run of one token is taking that token.
pub proof fn lemma_after_one_token(s: ParserView, token: TokenView, options: OptionsView)
    ensures
        after_tokens(s, seq![token], options) == after_token(s, token, options),
{
    let run = seq![token];
    assert(run.drop_last() == Seq::<TokenView>::empty());
    assert(run.last() == token);
    assert(after_tokens(s, run.drop_last(), options) == Ok::<ParserView, ParseErrorView>(s));
}

/// Whether the importer, where it stands inside an attribute with none
/// open, also remembers to have stood inside an attribute.
pub open spec fn settled(s: ParserView) -> bool {
    s.mode == Mode::Attribute && s.nested.len() == 0 ==> s.remembered == Mode::Attribute
}

/// A step keeps the importer settled.
pub proof fn lemma_step_keeps_settled(s: ParserView, token: TokenView, options: OptionsView)
    requires
        settled(s),
        after_token(s, token, options) is Ok,
    ensures
        settled(after_token(s, token, options)->Ok_0),
{
}

/// A run of tokens keeps the importer settled.
pub proof fn lemma_run_keeps_settled(s: ParserView, tokens: Seq<TokenView>, options: OptionsView)
    requires
        settled(s),
        after_tokens(s, tokens, options) is Ok,
    ensures
        settled(after_tokens(s, tokens, options)->Ok_0),
    decreases tokens.len(),
{
    if tokens.len() > 0 {
        lemma_run_keeps_settled(s, tokens.drop_last(), options);
        lemma_step_keeps_settled(
            after_tokens(s, tokens.drop_last(), options)->Ok_0,
            tokens.last(),
            options,
        );
    }
}

/// A document with a closing tag for an attribute where none is open gives
/// what the document without that tag gives: the same log, or the same
/// error.
pub proof fn lemma_stray_end_changes_nothing(
    before: Seq<TokenView>,
    name: Seq<char>,
    after: Seq<TokenView>,
    options: OptionsView,
)
    requires
        after_tokens(initial_state(), before, options) is Ok,
        after_tokens(initial_state(), before, options)->Ok_0.mode == Mode::Attribute,
        after_tokens(initial_state(), before, options)->Ok_0.nested.len() == 0,
        closes_attribute(name),
    ensures
        after_tokens(initial_state(), before + seq![TokenView::End(name)] + after, options)
            == after_tokens(initial_state(), before + after, options),
{
    let s = after_tokens(initial_state(), before, options)->Ok_0;
    let stray = seq![TokenView::End(name)];
    lemma_run_keeps_settled(initial_state(), before, options);
    lemma_stray_attribute_end(s, name, options);
    assert(after_token(s, TokenView::End(name), options) == Ok::<ParserView, ParseErrorView>(s));
    lemma_after_one_token(s, TokenView::End(name), options);
    assert(after_tokens(s, stray, options) == Ok::<ParserView, ParseErrorView>(s));
    lemma_after_tokens_in_two_runs(initial_state(), before, stray, options);
    lemma_after_tokens_in_two_runs(initial_state(), before + stray, after, options);
    lemma_after_tokens_in_two_runs(initial_state(), before, after, options);
}

/// The attributes that tags stand for, in the order of the tags.
pub open spec fn attributes_of_tags(tags: Seq<TagView>, options: OptionsView) -> Seq<
    AttributeView,
> {
    Seq::new(
        tags.len(),
        |i: int|
            plain_attribute(
                attribute_of_tag(tags[i], options)->Ok_0.0,
                attribute_of_tag(tags[i], options)->Ok_0.1,
            ),
    )
}

/// The tokens of tags that open and close at once, in the order of the
/// tags.
pub open spec fn empty_tags(tags: Seq<TagView>) -> Seq<TokenView> {
    Seq::new(tags.len(), |i: int| TokenView::Empty(tags[i]))
}

/// The list of the given key that is open with the given attributes in it.
pub open spec fn open_list(key: Seq<char>, items: Seq<AttributeView>) -> AttributeView {
    AttributeView { key, value: ValueView::List(items), own_attributes: Some(Seq::empty()) }
}

/// Whether the tags are children of a list: each stands for an attribute
/// whose text is a value of its type.
pub open spec fn are_list_children(tags: Seq<TagView>, options: OptionsView) -> bool {
    forall|i: int|
        0 <= i < tags.len() ==> stands_for_attribute((#[trigger] tags[i]).name, true)
            && attribute_of_tag(tags[i], options) is Ok
}

proof fn lemma_list_is_no_other_tag()
    ensures
        "list"@ != "trace"@,
        "list"@ != "event"@,
        "list"@ != "global"@,
        "list"@ != "log"@,
        tag_type("list"@) == TagType::List,
{
    reveal_strlit("list");
    reveal_strlit("trace");
    reveal_strlit("event");
    reveal_strlit("global");
    reveal_strlit("log");
    reveal_strlit("string");
    reveal_strlit("date");
    reveal_strlit("int");
    reveal_strlit("float");
    reveal_strlit("boolean");
    reveal_strlit("id");
    reveal_strlit("container");
    assert("list"@.len() == 4);
    assert("log"@.len() == 3);
    assert("int"@.len() == 3);
    assert("id"@.len() == 2);
    assert("list"@[0] != "date"@[0]);
}

/// After the opening tag of a list and the first `n` of its children, the
/// list is open with the attributes of these children in it, in their order.
pub proof fn lemma_list_takes_children(
    s: ParserView,
    list: TagView,
    children: Seq<TagView>,
    n: int,
    options: OptionsView,
)
    requires
        s.mode != Mode::Attribute,
        list.name == "list"@,
        are_list_children(children, options),
        0 <= n <= children.len(),
    ensures
        after_tokens(
            s,
            seq![TokenView::Start(list)] + empty_tags(children.take(n)),
            options,
        ) == Ok::<ParserView, ParseErrorView>(
            ParserView {
                mode: Mode::Attribute,
                remembered: s.mode,
                nested: s.nested.push(
                    open_list(
                        tag_field(list.attributes, "key"@, 0),
                        attributes_of_tags(children.take(n), options),
                    ),
                ),
                ..s
            },
        ),
    decreases n,
{
    lemma_list_is_no_other_tag();
    let key = tag_field(list.attributes, "key"@, 0);
    let start = seq![TokenView::Start(list)];
    if n == 0 {
        assert(empty_tags(children.take(0)) == Seq::<TokenView>::empty());
        assert(start + empty_tags(children.take(0)) == start);
        lemma_after_one_token(s, TokenView::Start(list), options);
        assert(attributes_of_tags(children.take(0), options) == Seq::<AttributeView>::empty());
        assert(attribute_of_tag(list, options) == Ok::<(Seq<char>, ValueView), ParseErrorView>(
            (key, ValueView::List(Seq::empty())),
        ));
    } else {
        lemma_list_takes_children(s, list, children, n - 1, options);
        let run = start + empty_tags(children.take(n));
        let child = children[n - 1];
        assert(children.take(n)[n - 1] == child);
        assert(run.drop_last() == start + empty_tags(children.take(n - 1)));
        assert(run.last() == TokenView::Empty(child));
        let items = attributes_of_tags(children.take(n - 1), options);
        let added = plain_attribute(
            attribute_of_tag(child, options)->Ok_0.0,
            attribute_of_tag(child, options)->Ok_0.1,
        );
        assert(attributes_of_tags(children.take(n), options) == items.push(added));
        let opened = s.nested.push(open_list(key, items));
        assert(opened.drop_last() == s.nested);
        assert(opened.last() == open_list(key, items));
        assert(with_child(open_list(key, items), added) == open_list(key, items.push(added)));
    }
}

/// A list keeps its children in the order of the document: after the
/// opening tag of a list in a trace, in an event or at the level of the log,
/// with no attribute open, then its children as tags that open and close at
/// once, then its closing tag, the trace, the event or the log has the list
/// under its key, with the attributes of the children in it in their order.
pub proof fn lemma_list_keeps_document_order(
    s: ParserView,
    list: TagView,
    children: Seq<TagView>,
    options: OptionsView,
)
    requires
        s.mode == Mode::Trace || s.mode == Mode::Event || s.mode == Mode::Log,
        s.nested.len() == 0,
        list.name == "list"@,
        are_list_children(children, options),
    ensures
        after_tokens(
            s,
            seq![TokenView::Start(list)] + empty_tags(children) + seq![
                TokenView::End(list.name),
            ],
            options,
        ) == Ok::<ParserView, ParseErrorView>(
            ParserView {
                remembered: s.mode,
                log: with_target_attribute(
                    s.log,
                    s.mode,
                    open_list(
                        tag_field(list.attributes, "key"@, 0),
                        attributes_of_tags(children, options),
                    ),
                ),
                ..s
            },
        ),
        attributes_of_tags(children, options).len() == children.len(),
{
    lemma_list_is_no_other_tag();
    lemma_list_takes_children(s, list, children, children.len() as int, options);
    assert(children.take(children.len() as int) == children);
    let inside = seq![TokenView::Start(list)] + empty_tags(children);
    let end = seq![TokenView::End(list.name)];
    let m = after_tokens(s, inside, options)->Ok_0;
    lemma_after_tokens_in_two_runs(s, inside, end, options);
    lemma_after_one_token(m, TokenView::End(list.name), options);
    reveal_strlit("list");
    reveal_strlit("trace");
    reveal_strlit("event");
    reveal_strlit("global");
    reveal_strlit("log");
    assert(closes_attribute(list.name));
    assert(m.nested.drop_last() == s.nested);
}

/// The attribute that is put where the mode says is found there under its
/// key afterwards, where there is a trace or an event to put it into.
pub proof fn lemma_target_attribute_is_found(log: EventLogView, mode: Mode, a: AttributeView)
    ensures
        mode == Mode::Log ==> crate::event_log_struct::lookup(
            with_target_attribute(log, mode, a).attributes,
            a.key,
        ) == Some(a),
        mode == Mode::Trace && log.traces.len() > 0 ==> crate::event_log_struct::lookup(
            with_target_attribute(log, mode, a).traces.last().attributes,
            a.key,
        ) == Some(a),
        mode == Mode::Event && log.traces.len() > 0 && log.traces.last().events.len() > 0
            ==> crate::event_log_struct::lookup(
            with_target_attribute(log, mode, a).traces.last().events.last().attributes,
            a.key,
        ) == Some(a),
{
    crate::event_log_struct::lemma_lookup_after_adding(log.attributes, a, a.key);
    if log.traces.len() > 0 {
        crate::event_log_struct::lemma_lookup_after_adding(log.traces.last().attributes, a, a.key);
        if log.traces.last().events.len() > 0 {
            crate::event_log_struct::lemma_lookup_after_adding(
                log.traces.last().events.last().attributes,
                a,
                a.key,
            );
        }
    }
}

} // verus!
