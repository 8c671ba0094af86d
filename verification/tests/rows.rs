use data_table::columns::DataTableColumn;
use data_table::cpu_graph_widget::{
    decimal_text, AppConfigFields, CpuDataType, CpuWidgetData, CpuWidgetState,
};
use data_table::columns::ColumnWidthBounds;
use data_table::data_type::{build_header_cells, truncate_text, ToDataRow};
use data_table::sort::{DataTableProps, SortType};
use data_table::table::DataTable;
use tui::widgets::Row;

fn columns(widths: &[u16]) -> Vec<DataTableColumn> {
    let names = ["CPU", "Use%", "Extra"];
    widths
        .iter()
        .enumerate()
        .map(|(i, width)| DataTableColumn {
            header: names[i].to_string(),
            width_bounds: ColumnWidthBounds::soft(None),
            is_hidden: false,
            calculated_width: *width,
        })
        .collect()
}

#[test]
fn text_is_cut_to_the_width() {
    assert_eq!(truncate_text("Header", 3), "Hea");
    assert_eq!(truncate_text("Header", 6), "Header");
    assert_eq!(truncate_text("Header", 7), "Header");
    assert_eq!(truncate_text("Header", 0), "");
    assert_eq!(truncate_text("", 4), "");
    assert_eq!(truncate_text("\u{e9}t\u{e9}s", 3), "\u{e9}t\u{e9}");
}

#[test]
fn numbers_are_written_in_decimal() {
    assert_eq!(decimal_text(0), "0");
    assert_eq!(decimal_text(7), "7");
    assert_eq!(decimal_text(10), "10");
    assert_eq!(decimal_text(1234567890), "1234567890");
    assert_eq!(decimal_text(u64::MAX), "18446744073709551615");
}

#[test]
fn header_row_leaves_out_columns_of_no_width() {
    let table = DataTable::new(
        columns(&[2, 0, 9]),
        DataTableProps {
            title: None,
            table_gap: 1,
            left_to_right: true,
            is_basic: false,
            show_table_scroll_position: false,
            show_current_entry_when_unfocused: true,
        },
    );
    assert_eq!(table.build_header(), Row::new(vec!["CP", "Extra"]));
    assert_ne!(table.build_header(), Row::new(vec!["CP", "", "Extra"]));
    assert_eq!(table.sort_type.build_header(&columns(&[0, 0, 0])), Row::new(Vec::<String>::new()));
    assert_eq!(
        table.sort_type.build_header(&columns(&[3, 4, 5])),
        Row::new(vec!["CPU", "Use%", "Extra"])
    );
    assert_eq!(build_header_cells(&columns(&[2, 0, 9])), vec!["CP", "Extra"]);
    assert_eq!(build_header_cells(&columns(&[0, 0, 0])), Vec::<String>::new());
    assert_eq!(build_header_cells(&columns(&[9, 9, 1])), vec!["CPU", "Use%", "E"]);
}

#[test]
fn cpu_entry_is_named_by_its_number() {
    let entry = CpuWidgetData::Entry { data_type: CpuDataType::Cpu(12), last_entry: 37 };
    assert_eq!(entry.row_cells(&columns(&[5, 4])), vec!["CPU12", "37%"]);
    assert_eq!(entry.row_cells(&columns(&[4, 4])), vec!["12", "37%"]);
    assert_eq!(entry.row_cells(&columns(&[1, 2])), vec!["1", "37"]);
    assert_eq!(entry.row_cells(&columns(&[6, 3, 2])), vec!["CPU12", "37%", ""]);
    assert_eq!(entry.to_data_row(&columns(&[5, 4])), Row::new(vec!["CPU12", "37%"]));
    assert_eq!(entry.to_data_row(&columns(&[4, 4])), Row::new(vec!["12", "37%"]));
    assert_ne!(entry.to_data_row(&columns(&[4, 4])), Row::new(vec!["CPU12", "37%"]));
}

#[test]
fn cpu_row_leaves_out_columns_of_no_width() {
    let entry = CpuWidgetData::Entry { data_type: CpuDataType::Avg, last_entry: 100 };
    assert_eq!(entry.row_cells(&columns(&[3, 4])), vec!["AVG", "100%"]);
    assert_eq!(entry.row_cells(&columns(&[0, 4])), vec!["100%"]);
    assert_eq!(entry.row_cells(&columns(&[2, 0])), vec!["AV"]);
    assert_eq!(entry.row_cells(&columns(&[0, 0])), Vec::<String>::new());
    assert_eq!(entry.row_cells(&[]), Vec::<String>::new());
    assert_eq!(entry.to_data_row(&columns(&[0, 4])), Row::new(vec!["100%"]));
    assert_eq!(entry.to_data_row(&columns(&[0, 0])), Row::new(Vec::<String>::new()));
}

#[test]
fn line_for_all_entries_has_no_usage() {
    assert_eq!(CpuWidgetData::All.row_cells(&columns(&[3, 4])), vec!["All", ""]);
    assert_eq!(CpuWidgetData::All.row_cells(&columns(&[2, 0])), vec!["Al"]);
    assert_eq!(CpuWidgetData::All.to_data_row(&columns(&[3, 4])), Row::new(vec!["All", ""]));
}

#[test]
fn cpu_widget_proposes_its_widths() {
    let data = [CpuWidgetData::All];
    assert_eq!(CpuWidgetData::column_widths(&data), vec![1, 3]);
    assert_eq!(CpuWidgetData::column_widths(&[]), vec![1, 3]);
}

#[test]
fn cpu_widget_starts_with_its_legend_shown() {
    let config = AppConfigFields { table_gap: 2, show_average_cpu: true };
    let state = CpuWidgetState::new(&config, 60_000, None);
    assert_eq!(state.current_display_time, 60_000);
    assert!(!state.is_legend_hidden);
    assert!(state.show_avg);
    assert!(state.autohide_timer.is_none());
    assert!(matches!(state.table.sort_type, SortType::Unsortable(_)));
    assert_eq!(state.table.props.table_gap, 2);
    assert!(!state.table.props.left_to_right);
    assert!(state.table.props.show_current_entry_when_unfocused);
    assert_eq!(state.table.columns.len(), 2);
    assert_eq!(state.table.columns[0].header, "CPU");
    assert_eq!(state.table.columns[1].header, "Use%");
    for column in &state.table.columns {
        assert!(matches!(
            column.width_bounds,
            ColumnWidthBounds::Soft { desired: 0, max_percentage: Some(50) }
        ));
        assert!(!column.is_hidden);
    }
}
