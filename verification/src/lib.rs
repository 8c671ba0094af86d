//! Layout engine for terminal data tables: width allocation for columns,
//! projection of records into rows, sort state and header hit-testing.

pub mod columns;
pub mod cpu_graph_widget;
pub mod data_type;
pub mod sort;
pub mod table;
