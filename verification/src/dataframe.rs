//! Flattening of an event log into one table: a row for each event, a
//! column for each attribute key.

use crate::event_log_struct::{
    lookup, Attribute, AttributeValue, AttributeView, Attributes, EventLog, EventLogView,
    ValueView,
};
use crate::float_literal::FloatLiteral;
use crate::ident::{uuid_canonical, write_uuid};
use crate::rows::{counts_of, list_rows, pairs_view, row_pairs, total};
use crate::table::{cells_view, CellValue, CellView, Column, ColumnView, DataType, Table, TableView};
use crate::text::{
    add_name, chars_from, chars_to_string, decimal_text, distinct, has_prefix, int_decimal,
    names_view, push_decimal, starts_with, str_chars,
};
use crate::time::{instant_text, timestamp_text};
use vstd::prelude::*;

verus! {

/// The text of a truth value.
pub open spec fn bool_text(b: bool) -> Seq<char> {
    if b {
        "true"@
    } else {
        "false"@
    }
}

/// The text of an attribute value: a list in square brackets and a
/// container in braces, each with its attributes as `key=value`, separated
/// by a comma and a space.
pub open spec fn value_text(v: ValueView) -> Seq<char>
    decreases v, 0nat,
{
    match v {
        ValueView::String(s) => s,
        ValueView::Date(t) => instant_text(t),
        ValueView::Int(n) => int_decimal(n as int),
        ValueView::Float(f) => f,
        ValueView::Boolean(b) => bool_text(b),
        ValueView::ID(id) => uuid_canonical(id),
        ValueView::List(l) => seq!['['] + items_text(l, l.len()) + seq![']'],
        ValueView::Container(c) => seq!['{'] + items_text(c, c.len()) + seq!['}'],
        ValueView::Null => "null"@,
    }
}

/// The text of an attribute: its key, an equals sign, its value.
pub open spec fn attribute_text(a: AttributeView) -> Seq<char>
    decreases a, 0nat,
{
    a.key + seq!['='] + value_text(a.value)
}

/// The text of the first `n` of the attributes, separated by a comma and a
/// space.
pub open spec fn items_text(s: Seq<AttributeView>, n: nat) -> Seq<char>
    decreases s, n,
{
    if n == 0 || n > s.len() {
        Seq::empty()
    } else if n == 1 {
        attribute_text(s[0])
    } else {
        items_text(s, (n - 1) as nat) + seq![',', ' '] + attribute_text(s[n - 1])
    }
}

fn push_str(out: &mut Vec<char>, text: &str)
    ensures
        final(out)@ == old(out)@ + text@,
{
    let chars = str_chars(text);
    let mut i: usize = 0;
    while i < chars.len()
        invariant
            i <= chars.len(),
            chars@ == text@,
            out@ == old(out)@ + chars@.take(i as int),
        decreases chars.len() - i,
    {
        out.push(chars[i]);
        assert(chars@.take(i + 1) == chars@.take(i as int).push(chars@[i as int]));
        i += 1;
    }
    assert(chars@.take(chars.len() as int) == chars@);
}

fn push_value_text(v: &AttributeValue, out: &mut Vec<char>)
    ensures
        final(out)@ == old(out)@ + value_text(v@),
    decreases *v, 0nat, 0nat,
{
    match v {
        AttributeValue::String(s) => push_str(out, s.as_str()),
        AttributeValue::Date(t) => {
            let text = timestamp_text(t);
            push_str(out, text.as_str());
        },
        AttributeValue::Int(n) => push_decimal(*n, out),
        AttributeValue::Float(f) => push_str(out, f.as_str()),
        AttributeValue::Boolean(b) => if *b {
            push_str(out, "true")
        } else {
            push_str(out, "false")
        },
        AttributeValue::ID(id) => {
            let text = write_uuid(*id);
            push_str(out, text.as_str());
        },
        AttributeValue::List(l) => {
            out.push('[');
            let ghost start = out@;
            let ghost items = crate::event_log_struct::attributes_view(l@);
            let mut i: usize = 0;
            while i < l.len()
                invariant
                    i <= l.len(),
                    items == crate::event_log_struct::attributes_view(l@),
                    out@ == start + items_text(items, i as nat),
                    *v == AttributeValue::List(*l),
                decreases *v, 0nat, l.len() - i,
            {
                if i > 0 {
                    out.push(',');
                    out.push(' ');
                }
                assert(items[i as int] == l@[i as int]@);
                let item = &l[i];
                proof {
                    broadcast use vstd::std_specs::vec::axiom_vec_index_decreases;

                    assert(decreases_to!(*l => l[i as int]));
                    assert(v->List_0 == *l);
                    assert(decreases_to!(*v => v->List_0));
                    assert(decreases_to!(*v => *item));
                }
                push_attribute_text(item, out);
                assert(out@ == start + items_text(items, (i + 1) as nat));
                i += 1;
            }
            out.push(']');
            assert(out@ == old(out)@ + value_text(v@));
        },
        AttributeValue::Container(c) => {
            out.push('{');
            let ghost start = out@;
            let n = c.len();
            let mut i: usize = 0;
            while i < n
                invariant
                    i <= n,
                    n == c@.len(),
                    out@ == start + items_text(c@, i as nat),
                    *v == AttributeValue::Container(*c),
                decreases *v, 0nat, n - i,
            {
                if i > 0 {
                    out.push(',');
                    out.push(' ');
                }
                let item = c.at(i);
                proof {
                    assert(v->Container_0 == *c);
                    assert(decreases_to!(*v => v->Container_0));
                    assert(decreases_to!(*v => *item));
                }
                push_attribute_text(item, out);
                assert(out@ == start + items_text(c@, (i + 1) as nat));
                i += 1;
            }
            out.push('}');
            assert(out@ == old(out)@ + value_text(v@));
        },
        AttributeValue::Null => push_str(out, "null"),
    }
}

fn push_attribute_text(a: &Attribute, out: &mut Vec<char>)
    ensures
        final(out)@ == old(out)@ + attribute_text(a@),
    decreases *a, 0nat, 0nat,
{
    push_str(out, a.key.as_str());
    out.push('=');
    push_value_text(&a.value, out);
    assert(out@ == old(out)@ + attribute_text(a@));
}

/// Writes an attribute value as text.
pub fn render_value(v: &AttributeValue) -> (s: String)
    ensures
        s@ == value_text(v@),
{
    let mut out: Vec<char> = Vec::new();
    push_value_text(v, &mut out);
    assert(out@ == value_text(v@));
    crate::text::chars_to_string(&out)
}

/// What comes before the key of a trace attribute in the name of its
/// column.
pub const TRACE_PREFIX: &'static str = "case:";

/// Whether a column of this name shows an attribute of the traces.
pub open spec fn is_case_key(column: Seq<char>) -> bool {
    has_prefix(column, TRACE_PREFIX@)
}

/// The name of the column that shows the trace attribute of the given key.
pub open spec fn case_key(key: Seq<char>) -> Seq<char> {
    TRACE_PREFIX@ + key
}

/// The key of the trace attribute that a column of the given name shows.
pub open spec fn trace_key_of(column: Seq<char>) -> Seq<char> {
    column.skip(TRACE_PREFIX@.len() as int)
}

/// The column names that the attributes of one trace give.
pub open spec fn case_keys(attributes: Seq<AttributeView>) -> Seq<Seq<char>> {
    Seq::new(attributes.len(), |i: int| case_key(attributes[i].key))
}

/// The column names that the attributes of one event give.
pub open spec fn event_keys(attributes: Seq<AttributeView>) -> Seq<Seq<char>> {
    Seq::new(attributes.len(), |i: int| attributes[i].key)
}

/// The column names that the events of one trace give, event after event.
pub open spec fn events_keys(events: Seq<crate::event_log_struct::EventView>) -> Seq<Seq<char>>
    decreases events.len(),
{
    if events.len() == 0 {
        Seq::empty()
    } else {
        events_keys(events.drop_last()) + event_keys(events.last().attributes)
    }
}

/// The column names that the traces give, trace after trace: for each trace
/// those of its own attributes, then those of its events.
pub open spec fn traces_keys(traces: Seq<crate::event_log_struct::TraceView>) -> Seq<Seq<char>>
    decreases traces.len(),
{
    if traces.len() == 0 {
        Seq::empty()
    } else {
        traces_keys(traces.drop_last()) + case_keys(traces.last().attributes) + events_keys(
            traces.last().events,
        )
    }
}

/// The names of the columns of the table: one for each key of an event
/// attribute and one, with the prefix, for each key of a trace attribute,
/// in the order in which the log first has them.
pub open spec fn column_keys(log: EventLogView) -> Seq<Seq<char>> {
    distinct(traces_keys(log.traces))
}

fn add_keys(
    names: &mut Vec<String>,
    attributes: &Attributes,
    of_trace: bool,
    Ghost(before): Ghost<Seq<Seq<char>>>,
)
    requires
        names_view(old(names)@) == distinct(before),
    ensures
        names_view(final(names)@) == distinct(
            before + (if of_trace {
                case_keys(attributes@)
            } else {
                event_keys(attributes@)
            }),
        ),
{
    let ghost keys = if of_trace {
        case_keys(attributes@)
    } else {
        event_keys(attributes@)
    };
    let n = attributes.len();
    let mut i: usize = 0;
    assert(before + keys.take(0) == before);
    while i < n
        invariant
            i <= n,
            n == attributes@.len(),
            keys == (if of_trace {
                case_keys(attributes@)
            } else {
                event_keys(attributes@)
            }),
            names_view(names@) == distinct(before + keys.take(i as int)),
        decreases n - i,
    {
        let key = &attributes.at(i).key;
        proof {
            let next = before + keys.take(i + 1);
            assert(next.drop_last() == before + keys.take(i as int));
            assert(next.last() == keys[i as int]);
        }
        if of_trace {
            let mut name = TRACE_PREFIX.to_owned();
            vstd::string::StringExecFns::append(&mut name, key.as_str());
            add_name(names, &name);
        } else {
            add_name(names, key);
        }
        i += 1;
    }
    assert(keys.take(n as int) == keys);
}

/// Collects the names of the columns of the table.
pub fn collect_column_keys(log: &EventLog) -> (names: Vec<String>)
    ensures
        names_view(names@) == column_keys(log@),
{
    let mut names: Vec<String> = Vec::new();
    let ghost traces = log@.traces;
    let mut t: usize = 0;
    assert(traces.take(0) == Seq::<crate::event_log_struct::TraceView>::empty());
    assert(names_view(names@) == Seq::<Seq<char>>::empty());
    while t < log.traces.len()
        invariant
            t <= log.traces.len(),
            traces == log@.traces,
            names_view(names@) == distinct(traces_keys(traces.take(t as int))),
        decreases log.traces.len() - t,
    {
        let trace = &log.traces[t];
        let ghost before = traces_keys(traces.take(t as int));
        assert(traces[t as int] == trace@);
        add_keys(&mut names, &trace.attributes, true, Ghost(before));
        let ghost events = trace@.events;
        let ghost base = before + case_keys(trace@.attributes);
        let mut e: usize = 0;
        assert(events.take(0) == Seq::<crate::event_log_struct::EventView>::empty());
        assert(base + events_keys(events.take(0)) == base);
        while e < trace.events.len()
            invariant
                e <= trace.events.len(),
                events == trace@.events,
                names_view(names@) == distinct(base + events_keys(events.take(e as int))),
            decreases trace.events.len() - e,
        {
            let ghost so_far = base + events_keys(events.take(e as int));
            assert(events[e as int] == trace.events@[e as int]@);
            add_keys(&mut names, &trace.events[e].attributes, false, Ghost(so_far));
            proof {
                assert(events.take(e + 1).drop_last() == events.take(e as int));
                assert(events.take(e + 1).last() == events[e as int]);
                assert(base + events_keys(events.take(e + 1)) == so_far + event_keys(
                    events[e as int].attributes,
                ));
            }
            e += 1;
        }
        proof {
            assert(events.take(trace.events.len() as int) == events);
            assert(traces.take(t + 1).drop_last() == traces.take(t as int));
            assert(traces.take(t + 1).last() == traces[t as int]);
        }
        t += 1;
    }
    assert(traces.take(log.traces.len() as int) == traces);
    names
}

/// The cell that shows an attribute value. An identifier is shown by its
/// canonical text, a list and a container by their text.
pub open spec fn value_cell(v: ValueView) -> CellView {
    match v {
        ValueView::String(s) => CellView::String(s),
        ValueView::Date(t) => CellView::Datetime(t),
        ValueView::Int(n) => CellView::Int(n),
        ValueView::Float(f) => CellView::Float(f),
        ValueView::Boolean(b) => CellView::Boolean(b),
        ValueView::ID(id) => CellView::String(uuid_canonical(id)),
        ValueView::List(_) => CellView::String(value_text(v)),
        ValueView::Container(_) => CellView::String(value_text(v)),
        ValueView::Null => CellView::Null,
    }
}

/// The cell that shows an attribute, or the lack of one.
pub open spec fn attribute_cell(a: Option<AttributeView>) -> CellView {
    match a {
        Some(a) => value_cell(a.value),
        None => CellView::Null,
    }
}

/// The attribute of the given key among `attributes`, or else among
/// `globals`, the attributes that stand in for missing ones.
pub open spec fn lookup_or_global(
    attributes: Seq<AttributeView>,
    globals: Seq<AttributeView>,
    key: Seq<char>,
) -> Option<AttributeView> {
    match lookup(attributes, key) {
        Some(a) => Some(a),
        None => lookup(globals, key),
    }
}

/// Makes the cell that shows an attribute value.
pub fn attribute_value_to_cell(v: &AttributeValue) -> (r: CellValue)
    ensures
        r@ == value_cell(v@),
{
    match v {
        AttributeValue::String(s) => CellValue::String(s.clone()),
        AttributeValue::Date(t) => CellValue::Datetime(*t),
        AttributeValue::Int(n) => CellValue::Int(*n),
        AttributeValue::Float(f) => CellValue::Float(f.clone()),
        AttributeValue::Boolean(b) => CellValue::Boolean(*b),
        AttributeValue::ID(id) => CellValue::String(write_uuid(*id)),
        AttributeValue::List(_) => CellValue::String(render_value(v)),
        AttributeValue::Container(_) => CellValue::String(render_value(v)),
        AttributeValue::Null => CellValue::Null,
    }
}

/// Makes the cell that shows the attribute of the given key among
/// `attributes`, or else among `globals`.
pub fn cell_of_key(attributes: &Attributes, globals: &Attributes, key: &String) -> (r: CellValue)
    ensures
        r@ == attribute_cell(lookup_or_global(attributes@, globals@, key@)),
{
    match attributes.get(key) {
        Some(a) => attribute_value_to_cell(&a.value),
        None => match globals.get(key) {
            Some(a) => attribute_value_to_cell(&a.value),
            None => CellValue::Null,
        },
    }
}

/// The rows of the table: one for each event, as the place of its trace and
/// its place in the trace; traces in order, and the events of each trace in
/// order.
pub open spec fn log_rows(log: EventLogView) -> Seq<(int, int)> {
    row_pairs(log.event_counts())
}

/// The cell of a column in the row of an event, before the types of the
/// column are reconciled. A column of a trace attribute shows the attribute
/// of the event's trace, a column of an event attribute that of the event;
/// where the trace or the event lacks it, the global attribute of that key
/// stands in.
pub open spec fn raw_cell(log: EventLogView, column: Seq<char>, row: (int, int)) -> CellView {
    let trace = log.traces[row.0];
    if is_case_key(column) {
        attribute_cell(
            lookup_or_global(trace.attributes, log.global_trace_attrs, trace_key_of(column)),
        )
    } else {
        attribute_cell(
            lookup_or_global(trace.events[row.1].attributes, log.global_event_attrs, column),
        )
    }
}

/// The cells of a column, before its types are reconciled.
pub open spec fn raw_column(log: EventLogView, column: Seq<char>) -> Seq<CellView> {
    Seq::new(log_rows(log).len(), |r: int| raw_cell(log, column, log_rows(log)[r]))
}

/// Whether one of the cells holds a value of the given type.
pub open spec fn has_type(cells: Seq<CellView>, t: DataType) -> bool {
    exists|i: int| 0 <= i < cells.len() && (#[trigger] cells[i]).data_type() == Some(t)
}

/// One where the cells hold a value of the type, else zero.
pub open spec fn counts(cells: Seq<CellView>, t: DataType) -> nat {
    if has_type(cells, t) {
        1
    } else {
        0
    }
}

/// The number of types of which the cells hold values.
pub open spec fn type_count(cells: Seq<CellView>) -> nat {
    counts(cells, DataType::String) + counts(cells, DataType::Datetime) + counts(
        cells,
        DataType::Int,
    ) + counts(cells, DataType::Float) + counts(cells, DataType::Boolean)
}

/// Whether the cells hold whole numbers and floating-point numbers and
/// nothing else.
pub open spec fn is_numeric_mix(cells: Seq<CellView>) -> bool {
    type_count(cells) == 2 && has_type(cells, DataType::Int) && has_type(cells, DataType::Float)
}

/// A cell with its whole number turned into the floating-point number of
/// the same value; any other cell as it is.
pub open spec fn widened(cell: CellView) -> CellView {
    match cell {
        CellView::Int(n) => CellView::Float(int_decimal(n as int)),
        other => other,
    }
}

/// A cell with its value turned into text; an empty cell stays empty.
pub open spec fn as_text(cell: CellView) -> CellView {
    match cell {
        CellView::Null => CellView::Null,
        CellView::String(s) => CellView::String(s),
        CellView::Datetime(t) => CellView::String(instant_text(t)),
        CellView::Int(n) => CellView::String(int_decimal(n as int)),
        CellView::Float(f) => CellView::String(f),
        CellView::Boolean(b) => CellView::String(bool_text(b)),
    }
}

/// The cells of a column with their types reconciled: as they are where
/// they hold values of one type at most, widened where they hold whole and
/// floating-point numbers only, and else turned into text.
pub open spec fn reconciled(cells: Seq<CellView>) -> Seq<CellView> {
    if type_count(cells) <= 1 {
        cells
    } else if is_numeric_mix(cells) {
        Seq::new(cells.len(), |i: int| widened(cells[i]))
    } else {
        Seq::new(cells.len(), |i: int| as_text(cells[i]))
    }
}

/// The column of the given name.
pub open spec fn log_column(log: EventLogView, column: Seq<char>) -> ColumnView {
    ColumnView { name: column, values: reconciled(raw_column(log, column)) }
}

/// The table of an event log: a row for each event, a column for each key of
/// an event attribute and, with the prefix, for each key of a trace
/// attribute.
pub open spec fn log_table(log: EventLogView) -> TableView {
    TableView {
        columns: Seq::new(
            column_keys(log).len(),
            |c: int| log_column(log, column_keys(log)[c]),
        ),
        height: log_rows(log).len(),
    }
}

/// Lists the rows of the table.
pub fn list_log_rows(log: &EventLog) -> (rows: Vec<(usize, usize)>)
    ensures
        pairs_view(rows@) == log_rows(log@),
{
    let mut lens: Vec<usize> = Vec::new();
    let mut t: usize = 0;
    while t < log.traces.len()
        invariant
            t <= log.traces.len(),
            counts_of(lens@) == log@.event_counts().take(t as int),
        decreases log.traces.len() - t,
    {
        let ghost before = lens@;
        lens.push(log.traces[t].events.len());
        proof {
            let all = log@.event_counts();
            assert(log@.traces[t as int] == log.traces@[t as int]@);
            assert(counts_of(lens@) == counts_of(before).push(all[t as int]));
            assert(all.take(t + 1) == all.take(t as int).push(all[t as int]));
        }
        t += 1;
    }
    assert(log@.event_counts().take(log.traces.len() as int) == log@.event_counts());
    list_rows(&lens)
}

fn raw_cells(log: &EventLog, column: &String, rows: &Vec<(usize, usize)>) -> (cells: Vec<CellValue>)
    requires
        pairs_view(rows@) == log_rows(log@),
    ensures
        cells_view(cells@) == raw_column(log@, column@),
{
    let name = str_chars(column.as_str());
    let prefix = str_chars(TRACE_PREFIX);
    let of_trace = starts_with(&name, &prefix);
    let trace_key = if of_trace {
        chars_to_string(&chars_from(&name, prefix.len()))
    } else {
        String::new()
    };
    let ghost wanted = raw_column(log@, column@);
    let ghost all = log_rows(log@);
    let mut cells: Vec<CellValue> = Vec::new();
    let mut r: usize = 0;
    assert(pairs_view(rows@).len() == rows@.len());
    while r < rows.len()
        invariant
            r <= rows.len(),
            all == log_rows(log@),
            pairs_view(rows@) == all,
            wanted == raw_column(log@, column@),
            of_trace == is_case_key(column@),
            of_trace ==> trace_key@ == trace_key_of(column@),
            cells_view(cells@) == wanted.take(r as int),
        decreases rows.len() - r,
    {
        let row = rows[r];
        proof {
            crate::rows::lemma_rows_in_range(log@.event_counts(), r as int);
            assert(all[r as int] == (row.0 as int, row.1 as int));
            assert(log@.traces[row.0 as int] == log.traces@[row.0 as int]@);
        }
        let trace = &log.traces[row.0];
        let cell = if of_trace {
            cell_of_key(&trace.attributes, &log.global_trace_attrs, &trace_key)
        } else {
            assert(trace@.events[row.1 as int] == trace.events@[row.1 as int]@);
            cell_of_key(&trace.events[row.1].attributes, &log.global_event_attrs, column)
        };
        proof {
            crate::table::lemma_cells_view_push(cells@, cell);
            assert(wanted.take(r + 1) == wanted.take(r as int).push(cell@));
        }
        cells.push(cell);
        r += 1;
    }
    assert(wanted.take(rows.len() as int) == wanted);
    cells
}

fn holds_type(cells: &Vec<CellValue>, t: DataType) -> (r: bool)
    ensures
        r == has_type(cells_view(cells@), t),
{
    let mut i: usize = 0;
    while i < cells.len()
        invariant
            i <= cells.len(),
            forall|k: int| 0 <= k < i ==> (#[trigger] cells_view(cells@)[k]).data_type() != Some(t),
        decreases cells.len() - i,
    {
        let here = cells[i].data_type();
        assert(cells_view(cells@)[i as int] == cells@[i as int]@);
        let same = match here {
            Some(x) => x == t,
            None => false,
        };
        if same {
            return true;
        }
        i += 1;
    }
    false
}

fn one_if(b: bool) -> (r: usize)
    ensures
        r == (if b {
            1int
        } else {
            0int
        }),
{
    if b {
        1
    } else {
        0
    }
}

/// Counts the types of which the cells hold values.
pub fn count_types(cells: &Vec<CellValue>) -> (n: usize)
    ensures
        n == type_count(cells_view(cells@)),
{
    one_if(holds_type(cells, DataType::String)) + one_if(holds_type(cells, DataType::Datetime))
        + one_if(holds_type(cells, DataType::Int)) + one_if(holds_type(cells, DataType::Float))
        + one_if(holds_type(cells, DataType::Boolean))
}

/// Turns a whole number into the floating-point number of the same value.
pub fn widen_cell(cell: CellValue) -> (r: CellValue)
    ensures
        r@ == widened(cell@),
{
    match cell {
        CellValue::Int(n) => CellValue::Float(FloatLiteral::from_int(n)),
        other => other,
    }
}

/// Turns the value of a cell into text.
pub fn cell_as_text(cell: CellValue) -> (r: CellValue)
    ensures
        r@ == as_text(cell@),
{
    match cell {
        CellValue::Null => CellValue::Null,
        CellValue::String(s) => CellValue::String(s),
        CellValue::Datetime(t) => CellValue::String(timestamp_text(&t)),
        CellValue::Int(n) => CellValue::String(chars_to_string(&decimal_text(n))),
        CellValue::Float(f) => CellValue::String(f.as_str().to_owned()),
        CellValue::Boolean(b) => if b {
            CellValue::String("true".to_owned())
        } else {
            CellValue::String("false".to_owned())
        },
    }
}

/// Reconciles the types of the cells of a column.
pub fn reconcile(cells: Vec<CellValue>) -> (r: Vec<CellValue>)
    ensures
        cells_view(r@) == reconciled(cells_view(cells@)),
{
    let types = count_types(&cells);
    if types <= 1 {
        return cells;
    }
    let numeric = types == 2 && holds_type(&cells, DataType::Int) && holds_type(
        &cells,
        DataType::Float,
    );
    let ghost before = cells_view(cells@);
    let ghost wanted = reconciled(before);
    let mut cells = cells;
    let mut out: Vec<CellValue> = Vec::new();
    let n = cells.len();
    let mut i: usize = 0;
    while i < n
        invariant
            i <= n,
            n == before.len(),
            cells@.len() == n - i,
            forall|k: int| 0 <= k < n - i ==> (#[trigger] cells@[k])@ == before[k],
            numeric == is_numeric_mix(before),
            type_count(before) > 1,
            wanted == reconciled(before),
            out@.len() == i,
            forall|k: int| 0 <= k < i ==> (#[trigger] out@[k])@ == wanted[n - 1 - k],
        decreases n - i,
    {
        let cell = cells.pop().unwrap();
        assert(cell@ == before[n - 1 - i]);
        let changed = if numeric {
            widen_cell(cell)
        } else {
            cell_as_text(cell)
        };
        out.push(changed);
        i += 1;
    }
    let mut r: Vec<CellValue> = Vec::new();
    let mut j: usize = 0;
    while j < n
        invariant
            j <= n,
            n == wanted.len(),
            out@.len() == n - j,
            forall|k: int| 0 <= k < n - j ==> (#[trigger] out@[k])@ == wanted[n - 1 - k],
            cells_view(r@) == wanted.take(j as int),
        decreases n - j,
    {
        let cell = out.pop().unwrap();
        proof {
            crate::table::lemma_cells_view_push(r@, cell);
            assert(wanted.take(j + 1) == wanted.take(j as int).push(cell@));
        }
        r.push(cell);
        j += 1;
    }
    assert(wanted.take(n as int) == wanted);
    r
}

/// The types that a cell can hold, in a fixed order.
pub open spec fn all_types() -> Seq<DataType> {
    seq![DataType::String, DataType::Datetime, DataType::Int, DataType::Float, DataType::Boolean]
}

/// The types of which the cells hold values.
pub open spec fn types_held(cells: Seq<CellView>) -> Seq<DataType> {
    all_types().filter(|t: DataType| has_type(cells, t))
}

fn push_if_held(
    types: &mut Vec<DataType>,
    cells: &Vec<CellValue>,
    t: DataType,
    Ghost(before): Ghost<Seq<DataType>>,
)
    requires
        old(types)@ == before.filter(|t: DataType| has_type(cells_view(cells@), t)),
    ensures
        final(types)@ == before.push(t).filter(|t: DataType| has_type(cells_view(cells@), t)),
{
    proof {
        reveal(Seq::filter);
        assert(before.push(t).drop_last() == before);
    }
    if holds_type(cells, t) {
        types.push(t);
    }
}

/// Lists the types of which the cells hold values.
pub fn held_types(cells: &Vec<CellValue>) -> (types: Vec<DataType>)
    ensures
        types@ == types_held(cells_view(cells@)),
{
    let mut types: Vec<DataType> = Vec::new();
    let ghost none = Seq::<DataType>::empty();
    proof {
        reveal(Seq::filter);
        assert(types@ == none.filter(|t: DataType| has_type(cells_view(cells@), t)));
    }
    push_if_held(&mut types, cells, DataType::String, Ghost(none));
    push_if_held(&mut types, cells, DataType::Datetime, Ghost(none.push(DataType::String)));
    push_if_held(
        &mut types,
        cells,
        DataType::Int,
        Ghost(none.push(DataType::String).push(DataType::Datetime)),
    );
    push_if_held(
        &mut types,
        cells,
        DataType::Float,
        Ghost(none.push(DataType::String).push(DataType::Datetime).push(DataType::Int)),
    );
    push_if_held(
        &mut types,
        cells,
        DataType::Boolean,
        Ghost(
            none.push(DataType::String).push(DataType::Datetime).push(DataType::Int).push(
                DataType::Float,
            ),
        ),
    );
    assert(none.push(DataType::String).push(DataType::Datetime).push(DataType::Int).push(
        DataType::Float,
    ).push(DataType::Boolean) == all_types());
    types
}

/// Lists the types of which the cells of a column hold values, before the
/// types are reconciled.
pub fn column_types(log: &EventLog, column: &String) -> (types: Vec<DataType>)
    ensures
        types@ == types_held(raw_column(log@, column@)),
{
    let rows = list_log_rows(log);
    let cells = raw_cells(log, column, &rows);
    held_types(&cells)
}

/// The columns whose cells hold values of more than one type, so that the
/// types have to be reconciled.
pub open spec fn mixed_keys(log: EventLogView) -> Seq<Seq<char>> {
    column_keys(log).filter(|column: Seq<char>| type_count(raw_column(log, column)) > 1)
}

/// Lists the columns whose cells hold values of more than one type. In the
/// table such a column holds floating-point numbers, where the values are
/// whole and floating-point numbers, and else texts.
pub fn mixed_columns(log: &EventLog) -> (names: Vec<String>)
    ensures
        names_view(names@) == mixed_keys(log@),
{
    let keys = collect_column_keys(log);
    let rows = list_log_rows(log);
    let ghost all = column_keys(log@);
    let ghost mixed = |column: Seq<char>| type_count(raw_column(log@, column)) > 1;
    let mut names: Vec<String> = Vec::new();
    let mut c: usize = 0;
    proof {
        reveal(Seq::filter);
        assert(all.take(0) == Seq::<Seq<char>>::empty());
        assert(names_view(names@) == Seq::<Seq<char>>::empty());
    }
    while c < keys.len()
        invariant
            c <= keys.len(),
            names_view(keys@) == all,
            all == column_keys(log@),
            pairs_view(rows@) == log_rows(log@),
            mixed == |column: Seq<char>| type_count(raw_column(log@, column)) > 1,
            names_view(names@) == all.take(c as int).filter(mixed),
        decreases keys.len() - c,
    {
        proof {
            reveal(Seq::filter);
            assert(all.take(c + 1).drop_last() == all.take(c as int));
            assert(all.take(c + 1).last() == keys@[c as int]@);
        }
        let cells = raw_cells(log, &keys[c], &rows);
        if count_types(&cells) > 1 {
            proof {
                crate::text::lemma_names_view_push(names@, keys@[c as int]);
            }
            names.push(keys[c].clone());
        }
        c += 1;
    }
    assert(all.take(keys.len() as int) == all);
    names
}

/// Builds the column of the given name. The columns of a table do not depend
/// on each other, so they can be built in any order, or side by side.
pub fn flatten_column(log: &EventLog, column: &String) -> (r: Column)
    ensures
        r@ == log_column(log@, column@),
        r@.values.len() == log@.event_count(),
{
    let rows = list_log_rows(log);
    let cells = reconcile(raw_cells(log, column, &rows));
    proof {
        crate::rows::lemma_row_count(log@.event_counts());
    }
    Column { name: column.clone(), values: cells }
}

/// Puts columns together to a table of the height of the log. Where the
/// columns are those of the log, in order, it is the table of the log.
pub fn assemble_table(log: &EventLog, columns: Vec<Column>) -> (table: Table)
    ensures
        table.columns == columns,
        table@.height == log@.event_count(),
        crate::table::columns_view(columns@) == log_table(log@).columns ==> table@ == log_table(
            log@,
        ),
{
    let rows = list_log_rows(log);
    proof {
        crate::rows::lemma_row_count(log@.event_counts());
        assert(pairs_view(rows@).len() == rows@.len());
    }
    Table { columns, height: rows.len() }
}

/// Flattens an event log into one table: a row for each event, traces in
/// order and the events of each trace in order; a column for each key of an
/// event attribute and, under the prefix `case:`, for each key of a trace
/// attribute. A trace attribute is shown in the rows of all events of its
/// trace.
pub fn convert_log_to_dataframe(log: &EventLog) -> (table: Table)
    ensures
        table@ == log_table(log@),
        table@.height == log@.event_count(),
        table@.rectangular(),
{
    let keys = collect_column_keys(log);
    let rows = list_log_rows(log);
    let ghost wanted = log_table(log@).columns;
    let mut columns: Vec<Column> = Vec::new();
    let mut c: usize = 0;
    while c < keys.len()
        invariant
            c <= keys.len(),
            names_view(keys@) == column_keys(log@),
            pairs_view(rows@) == log_rows(log@),
            wanted == log_table(log@).columns,
            crate::table::columns_view(columns@) == wanted.take(c as int),
        decreases keys.len() - c,
    {
        let cells = reconcile(raw_cells(log, &keys[c], &rows));
        let column = Column { name: keys[c].clone(), values: cells };
        proof {
            assert(names_view(keys@)[c as int] == keys@[c as int]@);
            crate::table::lemma_columns_view_push(columns@, column);
            assert(wanted.take(c + 1) == wanted.take(c as int).push(column@));
        }
        columns.push(column);
        c += 1;
    }
    proof {
        assert(wanted.take(keys.len() as int) == wanted);
        crate::rows::lemma_row_count(log@.event_counts());
        assert(pairs_view(rows@).len() == rows@.len());
    }
    Table { columns, height: rows.len() }
}

/// The table has one row for each event of the log, and every column has a
/// cell for each row.
pub proof fn lemma_one_row_for_each_event(log: EventLogView)
    ensures
        log_table(log).height == log.event_count(),
        log_table(log).rectangular(),
{
    crate::rows::lemma_row_count(log.event_counts());
}

/// The row of an event comes after the rows of all events of the traces
/// before its own, and after those of the events before it in its trace.
pub proof fn lemma_row_of_event(log: EventLogView, t: int, e: int)
    requires
        0 <= t < log.traces.len(),
        0 <= e < log.traces[t].events.len(),
    ensures
        total(log.event_counts().take(t)) + e < log_rows(log).len(),
        log_rows(log)[total(log.event_counts().take(t)) + e] == (t, e),
{
    crate::rows::lemma_row_position(log.event_counts(), t, e);
}

/// The rows follow the log: the events of an earlier trace come before those
/// of a later one, and the events of one trace come in their order.
pub proof fn lemma_rows_follow_the_log(log: EventLogView, r1: int, r2: int)
    requires
        0 <= r1 < r2 < log_rows(log).len(),
    ensures
        log_rows(log)[r1].0 < log_rows(log)[r2].0 || (log_rows(log)[r1].0 == log_rows(log)[r2].0
            && log_rows(log)[r1].1 < log_rows(log)[r2].1),
{
    crate::rows::lemma_rows_ordered(log.event_counts(), r1, r2);
}

/// The name of the column of a trace attribute begins with the prefix and
/// gives back the key of the attribute. So a key of an event attribute is
/// the name of the column of a trace attribute only where the key itself
/// begins with the prefix.
pub proof fn lemma_prefix_isolation(event_key: Seq<char>, trace_key: Seq<char>)
    ensures
        is_case_key(case_key(trace_key)),
        trace_key_of(case_key(trace_key)) == trace_key,
        event_key == case_key(trace_key) ==> is_case_key(event_key),
        !is_case_key(event_key) ==> event_key != case_key(trace_key),
{
    let name = case_key(trace_key);
    assert(name.take(TRACE_PREFIX@.len() as int) == TRACE_PREFIX@);
    assert(name.skip(TRACE_PREFIX@.len() as int) == trace_key);
}

/// A column whose name lacks the prefix shows what the events have under
/// that name; the column of a trace attribute shows what the traces have
/// under the attribute's key.
pub proof fn lemma_column_sources(log: EventLogView, key: Seq<char>, row: (int, int))
    ensures
        !is_case_key(key) ==> raw_cell(log, key, row) == attribute_cell(
            lookup_or_global(
                log.traces[row.0].events[row.1].attributes,
                log.global_event_attrs,
                key,
            ),
        ),
        raw_cell(log, case_key(key), row) == attribute_cell(
            lookup_or_global(log.traces[row.0].attributes, log.global_trace_attrs, key),
        ),
{
    lemma_prefix_isolation(key, key);
}

/// Reconciling the types of a column changes each cell by itself: equal
/// cells stay equal.
pub proof fn lemma_reconciled_pointwise(cells: Seq<CellView>, i: int, j: int)
    requires
        0 <= i < cells.len(),
        0 <= j < cells.len(),
        cells[i] == cells[j],
    ensures
        reconciled(cells).len() == cells.len(),
        reconciled(cells)[i] == reconciled(cells)[j],
{
}

/// In the column of a trace attribute, the rows of the events of one trace
/// all show the same value.
pub proof fn lemma_case_value_is_broadcast(log: EventLogView, column: Seq<char>, r1: int, r2: int)
    requires
        is_case_key(column),
        0 <= r1 < log_rows(log).len(),
        0 <= r2 < log_rows(log).len(),
        log_rows(log)[r1].0 == log_rows(log)[r2].0,
    ensures
        log_column(log, column).values[r1] == log_column(log, column).values[r2],
{
    let raw = raw_column(log, column);
    assert(raw[r1] == raw[r2]);
    lemma_reconciled_pointwise(raw, r1, r2);
}

/// Reconciling the types of a column leaves no cell empty that held a value,
/// and fills none that was empty.
pub proof fn lemma_reconciled_keeps_nulls(cells: Seq<CellView>, i: int)
    requires
        0 <= i < cells.len(),
    ensures
        reconciled(cells)[i] is Null <==> cells[i] is Null,
        reconciled(cells)[i] == cells[i] || reconciled(cells)[i] == widened(cells[i])
            || reconciled(cells)[i] == as_text(cells[i]),
{
}

/// A column that holds whole numbers and floating-point numbers holds
/// floating-point numbers only once its types are reconciled: each whole
/// number has become the floating-point number that its decimal text
/// denotes, and every other cell is as it was.
pub proof fn lemma_numeric_mix_is_widened(cells: Seq<CellView>, i: int)
    requires
        is_numeric_mix(cells),
        0 <= i < cells.len(),
    ensures
        reconciled(cells)[i] is Float || reconciled(cells)[i] is Null,
        cells[i] matches CellView::Int(n) ==> reconciled(cells)[i] == CellView::Float(
            int_decimal(n as int),
        ),
        !(cells[i] is Int) ==> reconciled(cells)[i] == cells[i],
        cells[i] matches CellView::Int(n) ==> crate::text::is_float_literal(int_decimal(n as int)),
{
    match cells[i] {
        CellView::Int(n) => {
            crate::text::lemma_int_decimal_is_float_literal(n as int);
        },
        _ => {},
    }
    match cells[i].data_type() {
        Some(t) => {
            assert(has_type(cells, t));
        },
        None => {},
    }
}

/// A column that holds values of more than one type, other than whole and
/// floating-point numbers alone, holds texts only once its types are
/// reconciled.
pub proof fn lemma_other_mix_is_text(cells: Seq<CellView>, i: int)
    requires
        type_count(cells) > 1,
        !is_numeric_mix(cells),
        0 <= i < cells.len(),
    ensures
        reconciled(cells)[i] == as_text(cells[i]),
        reconciled(cells)[i] is String || reconciled(cells)[i] is Null,
{
}

/// Where an event lacks an attribute for which the log has a global
/// attribute, the row of the event shows the value of the global attribute.
pub proof fn lemma_global_fallback(log: EventLogView, key: Seq<char>, t: int, e: int)
    requires
        0 <= t < log.traces.len(),
        0 <= e < log.traces[t].events.len(),
        !is_case_key(key),
        lookup(log.traces[t].events[e].attributes, key) is None,
        lookup(log.global_event_attrs, key) is Some,
    ensures
        ({
            let r = total(log.event_counts().take(t)) + e;
            let shown = value_cell(lookup(log.global_event_attrs, key)->0.value);
            &&& r < log_rows(log).len()
            &&& raw_column(log, key)[r] == shown
            &&& log_column(log, key).values[r] is Null <==> shown is Null
            &&& type_count(raw_column(log, key)) <= 1 ==> log_column(log, key).values[r] == shown
        }),
{
    lemma_row_of_event(log, t, e);
    let r = total(log.event_counts().take(t)) + e;
    assert(log_rows(log)[r] == (t, e));
    lemma_reconciled_keeps_nulls(raw_column(log, key), r);
}

/// Where a trace lacks an attribute for which the log has a global
/// attribute, the rows of the events of the trace show the value of the
/// global attribute.
pub proof fn lemma_global_trace_fallback(log: EventLogView, key: Seq<char>, t: int, e: int)
    requires
        0 <= t < log.traces.len(),
        0 <= e < log.traces[t].events.len(),
        lookup(log.traces[t].attributes, key) is None,
        lookup(log.global_trace_attrs, key) is Some,
    ensures
        ({
            let r = total(log.event_counts().take(t)) + e;
            let shown = value_cell(lookup(log.global_trace_attrs, key)->0.value);
            &&& r < log_rows(log).len()
            &&& raw_column(log, case_key(key))[r] == shown
            &&& log_column(log, case_key(key)).values[r] is Null <==> shown is Null
        }),
{
    lemma_row_of_event(log, t, e);
    lemma_prefix_isolation(key, key);
    let r = total(log.event_counts().take(t)) + e;
    assert(log_rows(log)[r] == (t, e));
    lemma_reconciled_keeps_nulls(raw_column(log, case_key(key)), r);
}

/// The table of a log without traces has no column and no row.
pub proof fn lemma_empty_log_gives_empty_table(log: EventLogView)
    requires
        log.traces.len() == 0,
    ensures
        log_table(log).columns.len() == 0,
        log_table(log).height == 0,
{
    assert(log.event_counts() == Seq::<nat>::empty());
}

/// The columns of the table have distinct names, and there is a column of a
/// name exactly where a trace or an event of the log gives that name.
pub proof fn lemma_columns_are_the_keys(log: EventLogView)
    ensures
        column_keys(log).no_duplicates(),
        forall|name: Seq<char>|
            column_keys(log).contains(name) <==> traces_keys(log.traces).contains(name),
{
    crate::text::lemma_distinct(traces_keys(log.traces));
}

} // verus!
