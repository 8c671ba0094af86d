//! The state of the CPU widget and the rows of its legend.

use crate::columns::DataTableColumn;
use crate::data_type::{cut_cells, new_row, row_text, truncate_text, truncated, ToDataRow};
use crate::sort::DataTableProps;
use crate::table::DataTable;
use std::time::Instant;
use tui::widgets::Row;
use vstd::prelude::*;
use vstd::string::StringExecFns;

verus! {

/// A point in time of the operating system's clock. Nothing is known of
/// its value; it is only carried along.
#[verifier::external_type_specification]
#[verifier::external_body]
pub struct ExInstant(Instant);

/// The character of the decimal digit `digit`.
pub open spec fn digit_char(digit: nat) -> char {
    if digit == 0 {
        '0'
    } else if digit == 1 {
        '1'
    } else if digit == 2 {
        '2'
    } else if digit == 3 {
        '3'
    } else if digit == 4 {
        '4'
    } else if digit == 5 {
        '5'
    } else if digit == 6 {
        '6'
    } else if digit == 7 {
        '7'
    } else if digit == 8 {
        '8'
    } else {
        '9'
    }
}

/// `number` written in decimal digits, without leading zeros.
pub open spec fn decimal(number: nat) -> Seq<char>
    decreases number,
{
    if number < 10 {
        seq![digit_char(number)]
    } else {
        decimal(number / 10).push(digit_char(number % 10))
    }
}

/// The text of one decimal digit.
fn digit_text(digit: u64) -> (text: &'static str)
    requires
        digit < 10,
    ensures
        text@ == seq![digit_char(digit as nat)],
{
    proof {
        reveal_strlit("0");
        reveal_strlit("1");
        reveal_strlit("2");
        reveal_strlit("3");
        reveal_strlit("4");
        reveal_strlit("5");
        reveal_strlit("6");
        reveal_strlit("7");
        reveal_strlit("8");
        reveal_strlit("9");
    }
    let text = if digit == 0 {
        "0"
    } else if digit == 1 {
        "1"
    } else if digit == 2 {
        "2"
    } else if digit == 3 {
        "3"
    } else if digit == 4 {
        "4"
    } else if digit == 5 {
        "5"
    } else if digit == 6 {
        "6"
    } else if digit == 7 {
        "7"
    } else if digit == 8 {
        "8"
    } else {
        "9"
    };
    assert(text@ =~= seq![digit_char(digit as nat)]);
    text
}

/// Writes `number` in decimal digits.
pub fn decimal_text(number: u64) -> (text: String)
    ensures
        text@ == decimal(number as nat),
    decreases number,
{
    if number < 10 {
        String::from_str(digit_text(number))
    } else {
        let mut text = decimal_text(number / 10);
        text.append(digit_text(number % 10));
        assert(text@ =~= decimal((number / 10) as nat).push(digit_char((number % 10) as nat)));
        text
    }
}

/// What an entry of the CPU widget stands for.
#[derive(Clone, Copy, Debug, PartialEq, Eq, Structural)]
pub enum CpuDataType {
    /// The average over all cores.
    Avg,
    /// The core of this number.
    Cpu(usize),
}

/// One line of the CPU widget's legend.
#[derive(Clone, Copy, Debug, PartialEq, Eq, Structural)]
pub enum CpuWidgetData {
    /// The line that stands for all entries.
    All,
    /// One core, or the average.
    Entry {
        data_type: CpuDataType,
        /// The last usage seen, in whole percents.
        last_entry: u64,
    },
}

impl CpuWidgetData {
    /// The name of an entry in a column of `width` cells: a core is named by
    /// its number alone where the column is narrower than 5 cells.
    pub open spec fn label(data_type: CpuDataType, width: int) -> Seq<char> {
        match data_type {
            CpuDataType::Avg => seq!['A', 'V', 'G'],
            CpuDataType::Cpu(index) => if width < 5 {
                decimal(index as nat)
            } else {
                seq!['C', 'P', 'U'] + decimal(index as nat)
            },
        }
    }

    /// The full text of this line under column `column`.
    fn cell_text(&self, column: usize, width: u16) -> (text: String)
        ensures
            text@ == self.cell(column as int, width as int),
    {
        proof {
            reveal_strlit("All");
            reveal_strlit("AVG");
            reveal_strlit("CPU");
            reveal_strlit("%");
            reveal_strlit("");
        }
        match self {
            CpuWidgetData::All => {
                if column == 0 {
                    let text = String::from_str("All");
                    assert(text@ =~= seq!['A', 'l', 'l']);
                    text
                } else {
                    let text = String::from_str("");
                    assert(text@ =~= Seq::<char>::empty());
                    text
                }
            },
            CpuWidgetData::Entry { data_type, last_entry } => {
                if column == 0 {
                    match data_type {
                        CpuDataType::Avg => {
                            let text = String::from_str("AVG");
                            assert(text@ =~= seq!['A', 'V', 'G']);
                            text
                        },
                        CpuDataType::Cpu(index) => {
                            let number = decimal_text(*index as u64);
                            if width < 5 {
                                number
                            } else {
                                let mut text = String::from_str("CPU");
                                text.append(number.as_str());
                                assert(text@ =~= seq!['C', 'P', 'U'] + decimal(*index as nat));
                                text
                            }
                        },
                    }
                } else if column == 1 {
                    let mut text = decimal_text(*last_entry);
                    text.append("%");
                    assert(text@ =~= decimal(*last_entry as nat).push('%'));
                    text
                } else {
                    let text = String::from_str("");
                    assert(text@ =~= Seq::<char>::empty());
                    text
                }
            },
        }
    }
}

impl ToDataRow for CpuWidgetData {
    /// The first column names the line and the second holds the usage with
    /// a percent sign; the line for all entries has no usage. Further
    /// columns are empty.
    open spec fn cell(&self, column: int, width: int) -> Seq<char> {
        match *self {
            CpuWidgetData::All => if column == 0 {
                seq!['A', 'l', 'l']
            } else {
                Seq::empty()
            },
            CpuWidgetData::Entry { data_type, last_entry } => if column == 0 {
                CpuWidgetData::label(data_type, width)
            } else if column == 1 {
                decimal(last_entry as nat).push('%')
            } else {
                Seq::empty()
            },
        }
    }

    fn to_data_row(&self, columns: &[DataTableColumn]) -> (row: Row<'static>) {
        new_row(self.row_cells(columns))
    }

    fn row_cells(&self, columns: &[DataTableColumn]) -> (row: Vec<String>) {
        let ghost texts = Seq::new(
            columns@.len(),
            |i: int| self.cell(i, columns@[i].calculated_width as int),
        );
        let mut row: Vec<String> = Vec::new();
        let mut i: usize = 0;
        assert(row_text(row@) =~= Seq::<Seq<char>>::empty());
        while i < columns.len()
            invariant
                i <= columns@.len(),
                texts == Seq::new(
                    columns@.len(),
                    |i: int| self.cell(i, columns@[i].calculated_width as int),
                ),
                row_text(row@) == cut_cells(texts, columns@, i as nat),
            decreases columns@.len() - i,
        {
            let width: u16 = columns[i].calculated_width;
            if width > 0 {
                let text = self.cell_text(i, width);
                let cut = truncate_text(text.as_str(), width as usize);
                let ghost before = row@;
                row.push(cut);
                assert(row_text(row@) =~= row_text(before).push(
                    truncated(self.cell(i as int, width as int), width as int),
                ));
            }
            i += 1;
        }
        row
    }

    /// One cell for the name and three for the usage.
    fn column_widths(data: &[Self]) -> (widths: Vec<u16>)
        ensures
            widths@ == seq![1u16, 3u16],
    {
        let mut widths: Vec<u16> = Vec::new();
        widths.push(1);
        widths.push(3);
        assert(widths@ =~= seq![1u16, 3u16]);
        widths
    }
}

/// The settings of the application that the CPU widget reads.
#[derive(Clone, Copy, Debug)]
pub struct AppConfigFields {
    /// The size of the gap between a table's header and its rows.
    pub table_gap: u16,
    /// Whether the average over all cores is shown.
    pub show_average_cpu: bool,
}

/// The state of the CPU widget.
pub struct CpuWidgetState {
    pub current_display_time: u64,
    pub is_legend_hidden: bool,
    pub show_avg: bool,
    pub autohide_timer: Option<Instant>,
    pub table: DataTable,
}

impl CpuWidgetState {
    /// The widget's first state: the legend is shown, and its table has the
    /// two soft columns "CPU" and "Use%", each of at most half the width,
    /// filled from the right.
    pub fn new(
        config: &AppConfigFields,
        current_display_time: u64,
        autohide_timer: Option<Instant>,
    ) -> (state: Self)
        ensures
            state.current_display_time == current_display_time,
            !state.is_legend_hidden,
            state.show_avg == config.show_average_cpu,
            state.autohide_timer == autohide_timer,
            state.table.wf(),
            state.table.sort_type is Unsortable,
            state.table.columns@.len() == 2,
            state.table.columns@[0] == (DataTableColumn {
                header: state.table.columns@[0].header,
                width_bounds: crate::columns::ColumnWidthBounds::Soft {
                    desired: 0,
                    max_percentage: Some(50u16),
                },
                is_hidden: false,
                calculated_width: 0,
            }),
            state.table.columns@[0].header@ == seq!['C', 'P', 'U'],
            state.table.columns@[1] == (DataTableColumn {
                header: state.table.columns@[1].header,
                width_bounds: crate::columns::ColumnWidthBounds::Soft {
                    desired: 0,
                    max_percentage: Some(50u16),
                },
                is_hidden: false,
                calculated_width: 0,
            }),
            state.table.columns@[1].header@ == seq!['U', 's', 'e', '%'],
            state.table.props.title.is_none(),
            state.table.props.table_gap == config.table_gap,
            !state.table.props.left_to_right,
            !state.table.props.is_basic,
            !state.table.props.show_table_scroll_position,
            state.table.props.show_current_entry_when_unfocused,
    {
        proof {
            reveal_strlit("CPU");
            reveal_strlit("Use%");
        }
        let cpu = String::from_str("CPU");
        let usage = String::from_str("Use%");
        assert(cpu@ =~= seq!['C', 'P', 'U']);
        assert(usage@ =~= seq!['U', 's', 'e', '%']);
        let mut columns: Vec<DataTableColumn> = Vec::new();
        columns.push(DataTableColumn::soft(cpu, Some(50)));
        columns.push(DataTableColumn::soft(usage, Some(50)));
        let props = DataTableProps {
            title: None,
            table_gap: config.table_gap,
            left_to_right: false,
            is_basic: false,
            show_table_scroll_position: false,
            show_current_entry_when_unfocused: true,
        };
        CpuWidgetState {
            current_display_time,
            is_legend_hidden: false,
            show_avg: config.show_average_cpu,
            autohide_timer,
            table: DataTable::new(columns, props),
        }
    }
}

} // verus!
