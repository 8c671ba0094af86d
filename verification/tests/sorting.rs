use data_table::columns::{ColumnWidthBounds, DataTableColumn};
use data_table::sort::{
    DataTableProps, DrawLocation, SortColumnInfo, SortDataTableColumn, SortDataTableProps,
    SortOrder, SortType, Sortable,
};
use data_table::table::DataTable;
use tui::widgets::Row;

fn props() -> DataTableProps {
    DataTableProps {
        title: None,
        table_gap: 1,
        left_to_right: true,
        is_basic: false,
        show_table_scroll_position: false,
        show_current_entry_when_unfocused: true,
    }
}

fn six_columns(sort_index: usize, order: SortOrder) -> DataTable {
    let names = ["Pid", "Name", "Cpu", "Mem", "Read", "Write"];
    let columns: Vec<SortDataTableColumn> = names
        .iter()
        .enumerate()
        .map(|(i, name)| {
            let column = SortDataTableColumn::new(DataTableColumn::hard(name.to_string(), 6));
            if i == 2 || i == 3 {
                column.default_order(SortOrder::Descending).shortcut(Some('c'))
            } else {
                column
            }
        })
        .collect();
    DataTable::new_sortable(columns, SortDataTableProps { inner: props(), sort_index, order })
}

fn state(table: &DataTable) -> (usize, SortOrder) {
    match &table.sort_type {
        SortType::Sortable(sortable) => (sortable.sort_index, sortable.order),
        SortType::Unsortable(_) => panic!("the table cannot be sorted"),
    }
}

fn two_ranges() -> DataTable {
    let columns = vec![
        SortDataTableColumn::new(DataTableColumn::hard("a".to_string(), 10)),
        SortDataTableColumn::new(DataTableColumn::hard("b".to_string(), 9))
            .default_order(SortOrder::Descending),
    ];
    let mut table = DataTable::new_sortable(
        columns,
        SortDataTableProps { inner: props(), sort_index: 0, order: SortOrder::Ascending },
    );
    table.update_header_locations(DrawLocation { x: 0, y: 3, width: 20, height: 5 }, &[10, 9]);
    table
}

#[test]
fn selecting_the_selected_column_toggles_the_order() {
    let mut table = six_columns(2, SortOrder::Ascending);
    table.set_sort_index(2);
    assert_eq!(state(&table), (2, SortOrder::Descending));
    table.set_sort_index(2);
    assert_eq!(state(&table), (2, SortOrder::Ascending));
}

#[test]
fn selecting_another_column_takes_its_default_order() {
    let mut table = six_columns(2, SortOrder::Descending);
    table.set_sort_index(5);
    assert_eq!(state(&table), (5, SortOrder::Ascending));
    table.set_sort_index(3);
    assert_eq!(state(&table), (3, SortOrder::Descending));
}

#[test]
fn selecting_no_column_changes_nothing() {
    let mut table = six_columns(2, SortOrder::Descending);
    table.set_sort_index(6);
    assert_eq!(state(&table), (2, SortOrder::Descending));
    table.set_sort_index(usize::MAX);
    assert_eq!(state(&table), (2, SortOrder::Descending));
}

#[test]
fn toggle_order_keeps_the_index() {
    let mut table = six_columns(4, SortOrder::Ascending);
    table.toggle_order();
    assert_eq!(state(&table), (4, SortOrder::Descending));
    table.toggle_order();
    assert_eq!(state(&table), (4, SortOrder::Ascending));
}

#[test]
fn new_sortable_keeps_what_it_is_given() {
    let table = six_columns(1, SortOrder::Descending);
    assert_eq!(state(&table), (1, SortOrder::Descending));
    assert_eq!(table.columns.len(), 6);
    assert_eq!(table.columns[5].header, "Write");
    match &table.sort_type {
        SortType::Sortable(sortable) => {
            assert_eq!(sortable.y_loc, 0);
            assert_eq!(sortable.sort_col_info.len(), 6);
            assert_eq!(sortable.sort_col_info[0].shortcut, None);
            assert_eq!(sortable.sort_col_info[0].default_order, SortOrder::Ascending);
            assert_eq!(sortable.sort_col_info[2].shortcut, Some('c'));
            assert_eq!(sortable.sort_col_info[2].default_order, SortOrder::Descending);
            assert_eq!(sortable.sort_col_info[4].range, 0..0);
        }
        SortType::Unsortable(_) => panic!("the table cannot be sorted"),
    }
}

#[test]
fn gap_cell_belongs_to_no_column() {
    let table = two_ranges();
    match &table.sort_type {
        SortType::Sortable(sortable) => {
            assert_eq!(sortable.sort_col_info[0].range, 0..10);
            assert_eq!(sortable.sort_col_info[1].range, 11..20);
            assert_eq!(sortable.y_loc, 3);
        }
        SortType::Unsortable(_) => panic!("the table cannot be sorted"),
    }
    assert_eq!(table.get_range(10), None);
    assert_eq!(table.get_range(11), Some(1));
    assert_eq!(table.get_range(0), Some(0));
    assert_eq!(table.get_range(9), Some(0));
    assert_eq!(table.get_range(19), Some(1));
    assert_eq!(table.get_range(20), None);
    assert_eq!(table.get_range(65535), None);
}

#[test]
fn click_on_a_header_selects_its_column() {
    let mut table = two_ranges();
    assert_eq!(table.try_select_location(11, 3), Some(1));
    assert_eq!(state(&table), (1, SortOrder::Descending));
    assert_eq!(table.try_select_location(19, 3), Some(1));
    assert_eq!(state(&table), (1, SortOrder::Ascending));
    assert_eq!(table.try_select_location(5, 3), Some(0));
    assert_eq!(state(&table), (0, SortOrder::Ascending));
}

#[test]
fn click_elsewhere_selects_nothing() {
    let mut table = two_ranges();
    assert_eq!(table.try_select_location(11, 4), None);
    assert_eq!(table.try_select_location(10, 3), None);
    assert_eq!(table.try_select_location(20, 3), None);
    assert_eq!(state(&table), (0, SortOrder::Ascending));
}

#[test]
fn click_before_the_header_is_laid_out_selects_nothing() {
    let mut table = six_columns(2, SortOrder::Ascending);
    assert_eq!(table.try_select_location(0, 0), None);
    assert_eq!(state(&table), (2, SortOrder::Ascending));
}

#[test]
fn header_locations_start_at_the_origin() {
    let mut table = six_columns(0, SortOrder::Ascending);
    table.update_header_locations(
        DrawLocation { x: 4, y: 9, width: 60, height: 10 },
        &[6, 0, 6, 6, 0, 3],
    );
    match &table.sort_type {
        SortType::Sortable(sortable) => {
            let ranges: Vec<_> = sortable.sort_col_info.iter().map(|c| c.range.clone()).collect();
            assert_eq!(ranges, vec![4..10, 11..11, 12..18, 19..25, 26..26, 27..30]);
            assert_eq!(sortable.sort_col_info[2].shortcut, Some('c'));
            assert_eq!(sortable.sort_col_info[3].default_order, SortOrder::Descending);
        }
        SortType::Unsortable(_) => panic!("the table cannot be sorted"),
    }
    assert_eq!(table.try_select_location(11, 9), None);
    assert_eq!(table.try_select_location(12, 9), Some(2));
    assert_eq!(table.try_select_location(29, 9), Some(5));
    assert_eq!(table.try_select_location(30, 9), None);
    assert_eq!(table.try_select_location(3, 9), None);
}

#[test]
fn header_locations_reach_the_last_cell() {
    let columns = vec![SortDataTableColumn::new(DataTableColumn::hard("a".to_string(), 5))];
    let mut table = DataTable::new_sortable(
        columns,
        SortDataTableProps { inner: props(), sort_index: 0, order: SortOrder::Ascending },
    );
    table.update_header_locations(DrawLocation { x: 65530, y: 0, width: 5, height: 1 }, &[5]);
    assert_eq!(table.get_range(65534), Some(0));
    assert_eq!(table.get_range(65535), None);
    assert_eq!(table.get_range(65529), None);
}

#[test]
fn table_that_cannot_be_sorted_ignores_sorting() {
    let columns = vec![DataTableColumn::hard("a".to_string(), 5)];
    let mut table = DataTable::new(columns, props());
    table.toggle_order();
    table.set_sort_index(0);
    table.update_header_locations(DrawLocation { x: 0, y: 0, width: 5, height: 1 }, &[5]);
    assert_eq!(table.try_select_location(0, 0), None);
    assert_eq!(table.get_range(0), None);
    assert!(matches!(table.sort_type, SortType::Unsortable(_)));
    assert_eq!(table.columns.len(), 1);
}

#[test]
fn get_header_returns_the_header_if_it_exists() {
    let table = six_columns(0, SortOrder::Ascending);
    assert_eq!(table.get_header(1), Some(&"Name".to_string()));
    assert_eq!(table.get_header(5), Some(&"Write".to_string()));
    assert_eq!(table.get_header(6), None);
}

#[test]
fn sortable_state_works_on_its_own() {
    let mut sortable = Sortable {
        y_loc: 1,
        sort_index: 0,
        order: SortOrder::Ascending,
        sort_col_info: vec![
            SortColumnInfo { range: 2..5, shortcut: None, default_order: SortOrder::Ascending },
            SortColumnInfo { range: 6..8, shortcut: None, default_order: SortOrder::Descending },
            SortColumnInfo { range: 9..12, shortcut: None, default_order: SortOrder::Ascending },
        ],
    };
    assert_eq!(sortable.get_range(1), None);
    assert_eq!(sortable.get_range(2), Some(0));
    assert_eq!(sortable.get_range(5), None);
    assert_eq!(sortable.get_range(7), Some(1));
    assert_eq!(sortable.get_range(8), None);
    assert_eq!(sortable.get_range(11), Some(2));
    assert_eq!(sortable.get_range(12), None);
    assert_eq!(sortable.try_select_location(6, 1), Some(1));
    assert_eq!((sortable.sort_index, sortable.order), (1, SortOrder::Descending));
    assert_eq!(sortable.try_select_location(6, 2), None);
    assert_eq!((sortable.sort_index, sortable.order), (1, SortOrder::Descending));
}

#[test]
fn defaults_are_ascending_and_empty() {
    assert_eq!(SortOrder::default(), SortOrder::Ascending);
    let info = SortColumnInfo::default();
    assert_eq!(info.range, 0..0);
    assert_eq!(info.shortcut, None);
    assert_eq!(info.default_order, SortOrder::Ascending);
}

#[test]
fn layout_pass_records_the_widths_in_the_columns() {
    let mut table = six_columns(0, SortOrder::Ascending);
    table.columns[1].is_hidden = true;
    table.update_calculated_widths(23);
    let widths: Vec<u16> = table.columns.iter().map(|c| c.calculated_width).collect();
    // Three columns of 6 and their gaps take 21 of 23; the fourth does not fit.
    assert_eq!(widths, vec![7, 0, 7, 6, 0, 0]);
    assert_eq!(state(&table), (0, SortOrder::Ascending));
    assert_eq!(table.build_header(), Row::new(vec!["Pid", "Cpu", "Mem"]));
}

#[test]
fn layout_pass_gives_the_same_widths_again() {
    let mut table = six_columns(0, SortOrder::Ascending);
    table.update_calculated_widths(30);
    let first: Vec<u16> = table.columns.iter().map(|c| c.calculated_width).collect();
    table.update_calculated_widths(30);
    let second: Vec<u16> = table.columns.iter().map(|c| c.calculated_width).collect();
    // Four columns of 6 and their gaps take 28 of 30; two get a cell more.
    assert_eq!(first, vec![7, 7, 6, 6, 0, 0]);
    assert_eq!(first, second);
}

#[test]
fn desired_widths_are_taken_by_soft_columns_only() {
    let columns = vec![
        DataTableColumn::soft("Name".to_string(), Some(50)),
        DataTableColumn::hard("Pid".to_string(), 5),
        DataTableColumn::soft("Use".to_string(), None),
        DataTableColumn::soft("Mem".to_string(), None),
    ];
    let mut table = DataTable::new(columns, props());
    table.set_desired_widths(&[30, 9, 4]);
    let bounds: Vec<ColumnWidthBounds> = table.columns.iter().map(|c| c.width_bounds).collect();
    assert!(matches!(
        bounds[0],
        ColumnWidthBounds::Soft { desired: 30, max_percentage: Some(50) }
    ));
    assert!(matches!(bounds[1], ColumnWidthBounds::Hard(5)));
    assert!(matches!(bounds[2], ColumnWidthBounds::Soft { desired: 4, max_percentage: None }));
    assert!(matches!(bounds[3], ColumnWidthBounds::Soft { desired: 0, max_percentage: None }));
    table.columns[3].is_hidden = true;
    // Half of 23 is 12 at most for the name; 5 and 4 follow, and nothing is left.
    table.update_calculated_widths(23);
    let widths: Vec<u16> = table.columns.iter().map(|c| c.calculated_width).collect();
    assert_eq!(widths, vec![12, 5, 4, 0]);
}

#[test]
fn table_without_columns_can_be_made_sortable() {
    let mut table = DataTable::new_sortable(
        Vec::new(),
        SortDataTableProps { inner: props(), sort_index: 0, order: SortOrder::Descending },
    );
    assert_eq!(state(&table), (0, SortOrder::Descending));
    assert_eq!(table.try_select_location(0, 0), None);
    table.set_sort_index(3);
    assert_eq!(state(&table), (0, SortOrder::Descending));
    table.set_sort_index(0);
    assert_eq!(state(&table), (0, SortOrder::Ascending));
    assert_eq!(table.get_header(0), None);
}
