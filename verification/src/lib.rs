//! Import of process-mining event logs (XES and OCEL 2.0) into an in-memory
//! model, and conversion of that model into flat, typed, columnar tables.
//!
//! An XES document is read by a state machine over the tokens of its XML
//! (`xes_import`) into an event log (`event_log_struct`), which is flattened
//! into one table with a row for each event (`dataframe`). An object-centric
//! event log (`ocel`) gives five tables: objects, events, the changes of
//! objects, and the references of objects and of events to objects.

pub mod dataframe;
pub mod event_log_struct;
pub mod float_literal;
pub mod ident;
pub mod object_index;
pub mod ocel;
pub mod rows;
pub mod sorting;
pub mod table;
pub mod text;
pub mod time;
pub mod xes_import;
pub mod xml;

pub use dataframe::convert_log_to_dataframe;
pub use event_log_struct::{
    Attribute, AttributeAddable, AttributeValue, Attributes, Event, EventLog, EventLogClassifier,
    EventLogExtension, Trace,
};
pub use ocel::{ocel2_to_df, ocel_dfs_to_py, OCEL2DataFrames, OCEL};
pub use table::{CellValue, Column, DataType, Table};
pub use xes_import::{import_xes, import_xes_str, XESImportOptions, XESParseError};
