//! Rectangular tables of typed cells in named columns.

use crate::float_literal::FloatLiteral;
use crate::time::Timestamp;
use vstd::prelude::*;

verus! {

/// The type of a cell that holds a value.
#[derive(Clone, Copy, Debug, PartialEq, Eq, Structural)]
pub enum DataType {
    String,
    Datetime,
    Int,
    Float,
    Boolean,
}

/// One cell of a table.
#[derive(Debug)]
pub enum CellValue {
    /// No value.
    Null,
    String(String),
    Datetime(Timestamp),
    Int(i64),
    Float(FloatLiteral),
    Boolean(bool),
}

/// What a cell holds.
pub enum CellView {
    Null,
    String(Seq<char>),
    Datetime(Timestamp),
    Int(i64),
    Float(Seq<char>),
    Boolean(bool),
}

impl CellView {
    /// The type of the value in the cell, if there is one.
    pub open spec fn data_type(self) -> Option<DataType> {
        match self {
            CellView::Null => None,
            CellView::String(_) => Some(DataType::String),
            CellView::Datetime(_) => Some(DataType::Datetime),
            CellView::Int(_) => Some(DataType::Int),
            CellView::Float(_) => Some(DataType::Float),
            CellView::Boolean(_) => Some(DataType::Boolean),
        }
    }
}

impl View for CellValue {
    type V = CellView;

    open spec fn view(&self) -> CellView {
        match self {
            CellValue::Null => CellView::Null,
            CellValue::String(s) => CellView::String(s@),
            CellValue::Datetime(t) => CellView::Datetime(*t),
            CellValue::Int(n) => CellView::Int(*n),
            CellValue::Float(f) => CellView::Float(f@),
            CellValue::Boolean(b) => CellView::Boolean(*b),
        }
    }
}

impl CellValue {
    /// The type of the value in the cell, if there is one.
    pub fn data_type(&self) -> (r: Option<DataType>)
        ensures
            r == self@.data_type(),
    {
        match self {
            CellValue::Null => None,
            CellValue::String(_) => Some(DataType::String),
            CellValue::Datetime(_) => Some(DataType::Datetime),
            CellValue::Int(_) => Some(DataType::Int),
            CellValue::Float(_) => Some(DataType::Float),
            CellValue::Boolean(_) => Some(DataType::Boolean),
        }
    }
}

impl Clone for CellValue {
    fn clone(&self) -> (r: Self)
        ensures
            r@ == self@,
    {
        match self {
            CellValue::Null => CellValue::Null,
            CellValue::String(s) => CellValue::String(s.clone()),
            CellValue::Datetime(t) => CellValue::Datetime(*t),
            CellValue::Int(n) => CellValue::Int(*n),
            CellValue::Float(f) => CellValue::Float(f.clone()),
            CellValue::Boolean(b) => CellValue::Boolean(*b),
        }
    }
}

/// What a run of cells holds.
pub open spec fn cells_view(cells: Seq<CellValue>) -> Seq<CellView> {
    Seq::new(cells.len(), |i: int| cells[i]@)
}

/// A named column of cells.
#[derive(Debug)]
pub struct Column {
    pub name: String,
    pub values: Vec<CellValue>,
}

/// What a column holds.
pub struct ColumnView {
    pub name: Seq<char>,
    pub values: Seq<CellView>,
}

impl View for Column {
    type V = ColumnView;

    open spec fn view(&self) -> ColumnView {
        ColumnView { name: self.name@, values: cells_view(self.values@) }
    }
}

impl Clone for Column {
    fn clone(&self) -> (r: Self)
        ensures
            r@ == self@,
    {
        let mut values: Vec<CellValue> = Vec::new();
        let mut i: usize = 0;
        while i < self.values.len()
            invariant
                i <= self.values.len(),
                cells_view(values@) == cells_view(self.values@).take(i as int),
            decreases self.values.len() - i,
        {
            let cell = self.values[i].clone();
            proof {
                lemma_cells_view_push(values@, cell);
                assert(cells_view(self.values@).take(i + 1) == cells_view(self.values@).take(
                    i as int,
                ).push(cell@));
            }
            values.push(cell);
            i += 1;
        }
        assert(cells_view(self.values@).take(self.values.len() as int) == cells_view(
            self.values@,
        ));
        Column { name: self.name.clone(), values }
    }
}

/// What a run of columns holds.
pub open spec fn columns_view(columns: Seq<Column>) -> Seq<ColumnView> {
    Seq::new(columns.len(), |i: int| columns[i]@)
}

/// A table: columns of one common height.
#[derive(Debug)]
pub struct Table {
    pub columns: Vec<Column>,
    /// The number of rows.
    pub height: usize,
}

/// What a table holds.
pub struct TableView {
    pub columns: Seq<ColumnView>,
    pub height: nat,
}

impl TableView {
    /// Every column has one cell for each row.
    pub open spec fn rectangular(self) -> bool {
        forall|c: int| 0 <= c < self.columns.len() ==> (#[trigger] self.columns[c]).values.len()
            == self.height
    }

    /// The place of the first column of the given name, if there is one.
    pub open spec fn position(self, name: Seq<char>) -> Option<int> {
        first_named(self.columns, name, 0)
    }
}

/// The place of the first column of the given name at or after `from`.
pub open spec fn first_named(columns: Seq<ColumnView>, name: Seq<char>, from: int) -> Option<int>
    decreases columns.len() - from,
{
    if from < 0 || from >= columns.len() {
        None
    } else if columns[from].name == name {
        Some(from)
    } else {
        first_named(columns, name, from + 1)
    }
}

impl View for Table {
    type V = TableView;

    open spec fn view(&self) -> TableView {
        TableView { columns: columns_view(self.columns@), height: self.height as nat }
    }
}

impl Clone for Table {
    fn clone(&self) -> (r: Self)
        ensures
            r@ == self@,
    {
        let mut columns: Vec<Column> = Vec::new();
        let mut i: usize = 0;
        while i < self.columns.len()
            invariant
                i <= self.columns.len(),
                columns_view(columns@) == columns_view(self.columns@).take(i as int),
            decreases self.columns.len() - i,
        {
            let column = self.columns[i].clone();
            proof {
                lemma_columns_view_push(columns@, column);
                assert(columns_view(self.columns@).take(i + 1) == columns_view(
                    self.columns@,
                ).take(i as int).push(column@));
            }
            columns.push(column);
            i += 1;
        }
        assert(columns_view(self.columns@).take(self.columns.len() as int) == columns_view(
            self.columns@,
        ));
        Table { columns, height: self.height }
    }
}

impl Table {
    /// The numbers of rows and of columns.
    pub fn shape(&self) -> (r: (usize, usize))
        ensures
            r.0 == self@.height,
            r.1 == self@.columns.len(),
    {
        (self.height, self.columns.len())
    }

    /// The first column of the given name.
    pub fn column(&self, name: &str) -> (r: Option<&Column>)
        ensures
            match self@.position(name@) {
                Some(i) => r == Some(&self.columns@[i]),
                None => r.is_none(),
            },
    {
        let wanted = crate::text::str_chars(name);
        let mut i: usize = 0;
        while i < self.columns.len()
            invariant
                i <= self.columns.len(),
                wanted@ == name@,
                self@.position(name@) == first_named(self@.columns, name@, i as int),
            decreases self.columns.len() - i,
        {
            let here = crate::text::str_chars(self.columns[i].name.as_str());
            assert(self@.columns[i as int] == self.columns@[i as int]@);
            if crate::text::chars_eq(&here, &wanted) {
                return Some(&self.columns[i]);
            }
            i += 1;
        }
        None
    }
}

/// The view of a run of cells grows with the run.
pub proof fn lemma_cells_view_push(cells: Seq<CellValue>, cell: CellValue)
    ensures
        cells_view(cells.push(cell)) == cells_view(cells).push(cell@),
{
    assert(cells_view(cells.push(cell)) =~= cells_view(cells).push(cell@));
}

/// The view of a run of columns grows with the run.
pub proof fn lemma_columns_view_push(columns: Seq<Column>, column: Column)
    ensures
        columns_view(columns.push(column)) == columns_view(columns).push(column@),
{
    assert(columns_view(columns.push(column)) =~= columns_view(columns).push(column@));
}

} // verus!
