//! Column declarations and the allocation of a pane's width among them.

use vstd::prelude::*;
use vstd::string::StrSliceExecFns;

verus! {

/// A bound on the width of a column.
#[derive(Clone, Copy, Debug)]
pub enum ColumnWidthBounds {
    /// The column is at least as wide as its header, and may otherwise shrink
    /// and grow up to a point.
    Soft {
        /// The preferred width, taken if possible.
        desired: u16,
        /// The widest the column may become, in whole percents of the total
        /// width available. With `None` the desired width is the limit.
        max_percentage: Option<u16>,
    },
    /// The column is exactly this wide, or does not appear at all.
    Hard(u16),
}

impl ColumnWidthBounds {
    /// A soft bound whose desired width is not known yet.
    pub fn soft(max_percentage: Option<u16>) -> (bounds: ColumnWidthBounds)
        ensures
            bounds == (ColumnWidthBounds::Soft { desired: 0, max_percentage }),
    {
        ColumnWidthBounds::Soft { desired: 0, max_percentage }
    }
}

/// One column of a table.
#[derive(Clone, Debug)]
pub struct DataTableColumn {
    /// The header text of the column.
    pub header: String,
    /// The restriction on this column's width.
    pub width_bounds: ColumnWidthBounds,
    /// A hidden column is always skipped.
    pub is_hidden: bool,
    /// The width given by the last layout pass; 0 if the column is not shown.
    pub calculated_width: u16,
}

impl DataTableColumn {
    /// The header's length in characters, as a 16-bit width.
    pub open spec fn header_width(&self) -> int {
        self.header@.len() as int % 0x1_0000
    }

    /// A visible column of fixed width.
    pub fn hard(header: String, width: u16) -> (column: Self)
        ensures
            column.header == header,
            column.width_bounds == ColumnWidthBounds::Hard(width),
            !column.is_hidden,
            column.calculated_width == 0,
    {
        Self {
            header,
            width_bounds: ColumnWidthBounds::Hard(width),
            is_hidden: false,
            calculated_width: 0,
        }
    }

    /// A visible column of flexible width.
    pub fn soft(header: String, max_percentage: Option<u16>) -> (column: Self)
        ensures
            column.header == header,
            column.width_bounds == (ColumnWidthBounds::Soft { desired: 0, max_percentage }),
            !column.is_hidden,
            column.calculated_width == 0,
    {
        Self {
            header,
            width_bounds: ColumnWidthBounds::soft(max_percentage),
            is_hidden: false,
            calculated_width: 0,
        }
    }
}

pub open spec fn min_of(a: int, b: int) -> int {
    if a <= b { a } else { b }
}

pub open spec fn max_of(a: int, b: int) -> int {
    if a >= b { a } else { b }
}

/// `percentage` percent of `total_width`, rounded up, as a 16-bit width.
pub open spec fn percentage_ceiling(percentage: int, total_width: int) -> int {
    min_of((percentage * total_width + 99) / 100, u16::MAX as int)
}

/// The widest a soft column may become before leftover width is shared out.
pub open spec fn soft_limit(
    header_width: int,
    desired: int,
    max_percentage: Option<u16>,
    total_width: int,
) -> int {
    max_of(
        match max_percentage {
            Some(percentage) => percentage_ceiling(percentage as int, total_width),
            None => desired,
        },
        header_width,
    )
}

/// The width that a visible column takes out of `remaining`; 0 says that it
/// does not fit, which ends the walk.
pub open spec fn first_grant(column: DataTableColumn, total_width: int, remaining: int) -> int {
    match column.width_bounds {
        ColumnWidthBounds::Soft { desired, max_percentage } => {
            let min_width = column.header_width();
            let limit = soft_limit(min_width, desired as int, max_percentage, total_width);
            let space = min_of(min_of(limit, desired as int), remaining);
            if min_width > remaining || space < min_width {
                0
            } else {
                space
            }
        },
        ColumnWidthBounds::Hard(width) => {
            if width as int > remaining {
                0
            } else {
                width as int
            }
        },
    }
}

/// The index of the column visited at `step` of a walk over `len` columns.
pub open spec fn visit_index(len: int, left_to_right: bool, step: int) -> int {
    if left_to_right { step } else { len - 1 - step }
}

/// Where a walk over the columns stands.
pub struct WalkState {
    /// The width not yet given away.
    pub remaining: int,
    /// Whether a column failed to fit, so that no later one is looked at.
    pub stopped: bool,
}

/// The state of the walk after its first `steps` columns.
pub open spec fn walk(
    columns: Seq<DataTableColumn>,
    total_width: int,
    left_to_right: bool,
    steps: nat,
) -> WalkState
    decreases steps,
{
    if steps == 0 {
        WalkState { remaining: total_width, stopped: false }
    } else {
        let before = walk(columns, total_width, left_to_right, (steps - 1) as nat);
        let column = columns[visit_index(columns.len() as int, left_to_right, steps - 1)];
        if before.stopped || column.is_hidden {
            before
        } else {
            let grant = first_grant(column, total_width, before.remaining);
            if grant == 0 {
                WalkState { remaining: before.remaining, stopped: true }
            } else {
                WalkState { remaining: max_of(before.remaining - grant - 1, 0), stopped: false }
            }
        }
    }
}

/// The width that the walk gives the column visited at `step`.
pub open spec fn granted(
    columns: Seq<DataTableColumn>,
    total_width: int,
    left_to_right: bool,
    step: nat,
) -> int {
    let before = walk(columns, total_width, left_to_right, step);
    let column = columns[visit_index(columns.len() as int, left_to_right, step as int)];
    if before.stopped || column.is_hidden {
        0
    } else {
        first_grant(column, total_width, before.remaining)
    }
}

/// How many of the first `steps` columns of the walk were given a width.
pub open spec fn committed(
    columns: Seq<DataTableColumn>,
    total_width: int,
    left_to_right: bool,
    steps: nat,
) -> int
    decreases steps,
{
    if steps == 0 {
        0
    } else {
        committed(columns, total_width, left_to_right, (steps - 1) as nat) + if granted(
            columns,
            total_width,
            left_to_right,
            (steps - 1) as nat,
        ) > 0 {
            1int
        } else {
            0int
        }
    }
}

/// The width left over when the walk has seen every column.
pub open spec fn leftover(
    columns: Seq<DataTableColumn>,
    total_width: int,
    left_to_right: bool,
) -> int {
    walk(columns, total_width, left_to_right, columns.len()).remaining
}

/// The final width of the column visited at `step`: its grant and its share
/// of the leftover, where the first columns of the walk take the odd cells.
pub open spec fn shared_width(
    columns: Seq<DataTableColumn>,
    total_width: int,
    left_to_right: bool,
    step: nat,
) -> int {
    let grant = granted(columns, total_width, left_to_right, step);
    let rest = leftover(columns, total_width, left_to_right);
    let count = committed(columns, total_width, left_to_right, columns.len());
    if grant == 0 {
        0
    } else {
        grant + rest / count + if committed(columns, total_width, left_to_right, step) < rest
            % count {
            1int
        } else {
            0int
        }
    }
}

/// The final width of the column at `index`.
pub open spec fn allocated_width(
    columns: Seq<DataTableColumn>,
    total_width: int,
    left_to_right: bool,
    index: int,
) -> int {
    shared_width(
        columns,
        total_width,
        left_to_right,
        visit_index(columns.len() as int, left_to_right, index) as nat,
    )
}

/// The final widths of all columns, in the columns' order.
pub open spec fn allocation(
    columns: Seq<DataTableColumn>,
    total_width: int,
    left_to_right: bool,
) -> Seq<int> {
    Seq::new(columns.len(), |i: int| allocated_width(columns, total_width, left_to_right, i))
}

/// The walk never has more left than it started with, and what is left only
/// goes down.
pub proof fn lemma_remaining_decreases(
    columns: Seq<DataTableColumn>,
    total_width: int,
    left_to_right: bool,
    earlier: nat,
    later: nat,
)
    requires
        0 <= total_width,
        earlier <= later,
    ensures
        0 <= walk(columns, total_width, left_to_right, later).remaining <= walk(
            columns,
            total_width,
            left_to_right,
            earlier,
        ).remaining <= total_width,
    decreases later,
{
    if later == 0 {
    } else if earlier == later {
        lemma_remaining_decreases(columns, total_width, left_to_right, 0, (later - 1) as nat);
    } else {
        lemma_remaining_decreases(
            columns,
            total_width,
            left_to_right,
            earlier,
            (later - 1) as nat,
        );
    }
}

/// The count of columns given a width only goes up along the walk.
pub proof fn lemma_committed_increases(
    columns: Seq<DataTableColumn>,
    total_width: int,
    left_to_right: bool,
    earlier: nat,
    later: nat,
)
    requires
        earlier <= later,
    ensures
        0 <= committed(columns, total_width, left_to_right, earlier) <= committed(
            columns,
            total_width,
            left_to_right,
            later,
        ) <= later,
    decreases later,
{
    if later == 0 {
    } else if earlier == later {
        lemma_committed_increases(columns, total_width, left_to_right, 0, (later - 1) as nat);
    } else {
        lemma_committed_increases(
            columns,
            total_width,
            left_to_right,
            earlier,
            (later - 1) as nat,
        );
    }
}

/// A column that was given a width leaves room for the whole leftover beside
/// it, and for its gap unless it took the last cell.
pub proof fn lemma_grant_leaves_leftover(
    columns: Seq<DataTableColumn>,
    total_width: int,
    left_to_right: bool,
    step: nat,
)
    requires
        0 <= total_width,
        step < columns.len(),
        granted(columns, total_width, left_to_right, step) > 0,
    ensures
        granted(columns, total_width, left_to_right, step) + leftover(
            columns,
            total_width,
            left_to_right,
        ) <= total_width,
        leftover(columns, total_width, left_to_right) > 0 ==> granted(
            columns,
            total_width,
            left_to_right,
            step,
        ) + leftover(columns, total_width, left_to_right) + 1 <= total_width,
{
    lemma_remaining_decreases(columns, total_width, left_to_right, 0, step);
    lemma_remaining_decreases(columns, total_width, left_to_right, step + 1, columns.len());
    reveal_with_fuel(walk, 2);
}

/// The widths as integers.
pub open spec fn as_ints(widths: Seq<u16>) -> Seq<int> {
    Seq::new(widths.len(), |i: int| widths[i] as int)
}

/// What a column of this width takes up in a row: its cells and one cell of
/// gap; nothing if it is not shown.
pub open spec fn cell_cost(width: int) -> int {
    if width > 0 { width + 1 } else { 0 }
}

/// What the shown columns of `widths` take up together, each with its gap.
pub open spec fn occupied(widths: Seq<int>) -> int
    decreases widths.len(),
{
    if widths.len() == 0 {
        0
    } else {
        occupied(widths.drop_last()) + cell_cost(widths.last())
    }
}

/// What the first `steps` columns of the walk take up with the widths that
/// the walk gave them.
pub open spec fn spent(
    columns: Seq<DataTableColumn>,
    total_width: int,
    left_to_right: bool,
    steps: nat,
) -> int
    decreases steps,
{
    if steps == 0 {
        0
    } else {
        spent(columns, total_width, left_to_right, (steps - 1) as nat) + cell_cost(
            granted(columns, total_width, left_to_right, (steps - 1) as nat),
        )
    }
}

/// What the first `steps` columns of the walk take up with their final
/// widths.
pub open spec fn shared_spent(
    columns: Seq<DataTableColumn>,
    total_width: int,
    left_to_right: bool,
    steps: nat,
) -> int
    decreases steps,
{
    if steps == 0 {
        0
    } else {
        shared_spent(columns, total_width, left_to_right, (steps - 1) as nat) + cell_cost(
            shared_width(columns, total_width, left_to_right, (steps - 1) as nat),
        )
    }
}

/// Whether one of the first `steps` columns of the walk took all that was
/// left, so that no cell remained for the gap behind it.
pub open spec fn last_cell_taken(
    columns: Seq<DataTableColumn>,
    total_width: int,
    left_to_right: bool,
    steps: nat,
) -> bool
    decreases steps,
{
    if steps == 0 {
        false
    } else {
        let grant = granted(columns, total_width, left_to_right, (steps - 1) as nat);
        last_cell_taken(columns, total_width, left_to_right, (steps - 1) as nat) || (grant > 0
            && grant == walk(columns, total_width, left_to_right, (steps - 1) as nat).remaining)
    }
}

/// Along the walk, what was given away and what is left make up the total
/// width; where a column took the last cell, its gap goes one beyond.
pub proof fn lemma_walk_accounts(
    columns: Seq<DataTableColumn>,
    total_width: int,
    left_to_right: bool,
    steps: nat,
)
    requires
        0 <= total_width,
    ensures
        if last_cell_taken(columns, total_width, left_to_right, steps) {
            &&& walk(columns, total_width, left_to_right, steps).remaining == 0
            &&& spent(columns, total_width, left_to_right, steps) == total_width + 1
        } else {
            spent(columns, total_width, left_to_right, steps) + walk(
                columns,
                total_width,
                left_to_right,
                steps,
            ).remaining == total_width
        },
    decreases steps,
{
    if steps > 0 {
        lemma_walk_accounts(columns, total_width, left_to_right, (steps - 1) as nat);
        lemma_remaining_decreases(columns, total_width, left_to_right, 0, (steps - 1) as nat);
    }
}

/// Sharing out the leftover adds to each column's cost its even share, and
/// one more cell for the first columns of the walk.
pub proof fn lemma_share_accounts(
    columns: Seq<DataTableColumn>,
    total_width: int,
    left_to_right: bool,
    steps: nat,
)
    requires
        0 <= total_width,
        steps <= columns.len(),
        committed(columns, total_width, left_to_right, columns.len()) > 0,
    ensures
        shared_spent(columns, total_width, left_to_right, steps) == spent(
            columns,
            total_width,
            left_to_right,
            steps,
        ) + committed(columns, total_width, left_to_right, steps) * (leftover(
            columns,
            total_width,
            left_to_right,
        ) / committed(columns, total_width, left_to_right, columns.len())) + min_of(
            committed(columns, total_width, left_to_right, steps),
            leftover(columns, total_width, left_to_right) % committed(
                columns,
                total_width,
                left_to_right,
                columns.len(),
            ),
        ),
    decreases steps,
{
    let rest = leftover(columns, total_width, left_to_right);
    let count = committed(columns, total_width, left_to_right, columns.len());
    let bonus = rest / count;
    lemma_remaining_decreases(columns, total_width, left_to_right, 0, columns.len());
    assert(0 <= bonus) by (nonlinear_arith)
        requires
            0 <= rest,
            0 < count,
            bonus == rest / count,
    ;
    if steps > 0 {
        let before = (steps - 1) as nat;
        lemma_share_accounts(columns, total_width, left_to_right, before);
        lemma_remaining_decreases(columns, total_width, left_to_right, 0, before);
        let ranked = committed(columns, total_width, left_to_right, before);
        assert((ranked + 1) * bonus == ranked * bonus + bonus) by (nonlinear_arith);
    }
}

/// Where no column was given a width, the final widths take up nothing.
pub proof fn lemma_nothing_shared(
    columns: Seq<DataTableColumn>,
    total_width: int,
    left_to_right: bool,
    steps: nat,
)
    requires
        steps <= columns.len(),
        committed(columns, total_width, left_to_right, columns.len()) == 0,
    ensures
        shared_spent(columns, total_width, left_to_right, steps) == 0,
    decreases steps,
{
    if steps > 0 {
        lemma_nothing_shared(columns, total_width, left_to_right, (steps - 1) as nat);
        lemma_committed_increases(columns, total_width, left_to_right, steps, columns.len());
        lemma_committed_increases(columns, total_width, left_to_right, 0, (steps - 1) as nat);
    }
}

/// `occupied` may as well count from the front.
pub proof fn lemma_occupied_from_front(widths: Seq<int>)
    requires
        widths.len() > 0,
    ensures
        occupied(widths) == cell_cost(widths[0]) + occupied(widths.skip(1)),
    decreases widths.len(),
{
    if widths.len() == 1 {
        assert(widths.skip(1) =~= Seq::<int>::empty());
        assert(widths.drop_last() =~= Seq::<int>::empty());
    } else {
        lemma_occupied_from_front(widths.drop_last());
        assert(widths.skip(1).drop_last() =~= widths.drop_last().skip(1));
    }
}

/// The same widths in the opposite order.
pub open spec fn mirrored(widths: Seq<int>) -> Seq<int> {
    Seq::new(widths.len(), |i: int| widths[widths.len() - 1 - i])
}

/// The order of the columns does not matter to what they take up.
pub proof fn lemma_occupied_mirrored(widths: Seq<int>)
    ensures
        occupied(mirrored(widths)) == occupied(widths),
    decreases widths.len(),
{
    if widths.len() > 0 {
        lemma_occupied_from_front(mirrored(widths));
        lemma_occupied_mirrored(widths.drop_last());
        assert(mirrored(widths).skip(1) =~= mirrored(widths.drop_last()));
    } else {
        assert(mirrored(widths) =~= widths);
    }
}

/// The final widths in the order of the walk.
pub open spec fn walk_widths(
    columns: Seq<DataTableColumn>,
    total_width: int,
    left_to_right: bool,
) -> Seq<int> {
    Seq::new(
        columns.len(),
        |step: int| shared_width(columns, total_width, left_to_right, step as nat),
    )
}

/// What the first columns of the walk take up is what their widths take up.
pub proof fn lemma_walk_widths_occupied(
    columns: Seq<DataTableColumn>,
    total_width: int,
    left_to_right: bool,
    steps: nat,
)
    requires
        steps <= columns.len(),
    ensures
        occupied(walk_widths(columns, total_width, left_to_right).take(steps as int))
            == shared_spent(columns, total_width, left_to_right, steps),
    decreases steps,
{
    let all = walk_widths(columns, total_width, left_to_right);
    if steps > 0 {
        lemma_walk_widths_occupied(columns, total_width, left_to_right, (steps - 1) as nat);
        assert(all.take(steps as int).drop_last() =~= all.take(steps - 1));
    }
}

/// The widths that an allocation gives fit the total width: the shown
/// columns, each with one cell of gap behind it, take up no more than the
/// total width and one cell, and no more than the total width unless a
/// column took the last cell left and its gap lies beyond. Where a column is
/// shown, nothing is left unused.
pub proof fn lemma_allocation_fits(
    columns: Seq<DataTableColumn>,
    total_width: int,
    left_to_right: bool,
)
    requires
        0 <= total_width,
    ensures
        occupied(allocation(columns, total_width, left_to_right)) <= total_width + 1,
        !last_cell_taken(columns, total_width, left_to_right, columns.len()) ==> occupied(
            allocation(columns, total_width, left_to_right),
        ) <= total_width,
        committed(columns, total_width, left_to_right, columns.len()) > 0 ==> occupied(
            allocation(columns, total_width, left_to_right),
        ) == total_width + if last_cell_taken(
            columns,
            total_width,
            left_to_right,
            columns.len(),
        ) {
            1int
        } else {
            0int
        },
{
    let n = columns.len();
    let all = walk_widths(columns, total_width, left_to_right);
    let rest = leftover(columns, total_width, left_to_right);
    let count = committed(columns, total_width, left_to_right, n);
    lemma_walk_widths_occupied(columns, total_width, left_to_right, n);
    assert(all.take(n as int) =~= all);
    if left_to_right {
        assert(allocation(columns, total_width, left_to_right) =~= all);
    } else {
        assert(allocation(columns, total_width, left_to_right) =~= mirrored(all));
        lemma_occupied_mirrored(all);
    }
    lemma_committed_increases(columns, total_width, left_to_right, 0, n);
    lemma_remaining_decreases(columns, total_width, left_to_right, 0, n);
    lemma_walk_accounts(columns, total_width, left_to_right, n);
    if count > 0 {
        lemma_share_accounts(columns, total_width, left_to_right, n);
        assert(count * (rest / count) + min_of(count, rest % count) == rest) by (nonlinear_arith)
            requires
                0 <= rest,
                0 < count,
        ;
    } else {
        lemma_nothing_shared(columns, total_width, left_to_right, n);
    }
}

/// A soft column that is bound to a percentage of the total width is
/// granted no more than that share, rounded up, or its header's length where
/// that is more, whatever width is desired for it. Where the walk leaves
/// nothing to be shared out, that is the column's final width too; leftover
/// width is given to the columns beyond their limits.
pub proof fn lemma_soft_width_within_ceiling(
    columns: Seq<DataTableColumn>,
    total_width: int,
    left_to_right: bool,
    index: int,
    percentage: u16,
)
    requires
        0 <= total_width,
        0 <= index < columns.len(),
        columns[index].width_bounds matches ColumnWidthBounds::Soft { desired, max_percentage }
            && max_percentage == Some(percentage),
    ensures
        granted(
            columns,
            total_width,
            left_to_right,
            visit_index(columns.len() as int, left_to_right, index) as nat,
        ) <= max_of(
            percentage_ceiling(percentage as int, total_width),
            columns[index].header_width(),
        ),
        leftover(columns, total_width, left_to_right) == 0 ==> allocated_width(
            columns,
            total_width,
            left_to_right,
            index,
        ) == granted(
            columns,
            total_width,
            left_to_right,
            visit_index(columns.len() as int, left_to_right, index) as nat,
        ),
        leftover(columns, total_width, left_to_right) == 0 && columns[index].header_width()
            <= percentage_ceiling(percentage as int, total_width) ==> allocated_width(
            columns,
            total_width,
            left_to_right,
            index,
        ) <= percentage_ceiling(percentage as int, total_width),
{
    let step = visit_index(columns.len() as int, left_to_right, index) as nat;
    assert(visit_index(columns.len() as int, left_to_right, step as int) == index);
    lemma_committed_increases(columns, total_width, left_to_right, step + 1, columns.len());
    lemma_committed_increases(columns, total_width, left_to_right, 0, step);
    assert(0 <= percentage as int * total_width) by (nonlinear_arith)
        requires
            0 <= total_width,
            0 <= percentage as int,
    ;
}

/// Whether two sequences of columns are declared alike: the same headers,
/// bounds and hidden flags, whatever widths were calculated for them last.
pub open spec fn declared_alike(first: Seq<DataTableColumn>, second: Seq<DataTableColumn>) -> bool {
    &&& first.len() == second.len()
    &&& forall|i: int|
        0 <= i < first.len() ==> {
            &&& (#[trigger] first[i]).header@ == second[i].header@
            &&& first[i].width_bounds == second[i].width_bounds
            &&& first[i].is_hidden == second[i].is_hidden
        }
}

/// The walk over columns that are declared alike is the same walk.
pub proof fn lemma_walk_alike(
    first: Seq<DataTableColumn>,
    second: Seq<DataTableColumn>,
    total_width: int,
    left_to_right: bool,
    steps: nat,
)
    requires
        declared_alike(first, second),
        steps <= first.len(),
    ensures
        walk(first, total_width, left_to_right, steps) == walk(
            second,
            total_width,
            left_to_right,
            steps,
        ),
        committed(first, total_width, left_to_right, steps) == committed(
            second,
            total_width,
            left_to_right,
            steps,
        ),
        steps < first.len() ==> granted(first, total_width, left_to_right, steps) == granted(
            second,
            total_width,
            left_to_right,
            steps,
        ),
    decreases steps,
{
    if steps > 0 {
        lemma_walk_alike(first, second, total_width, left_to_right, (steps - 1) as nat);
        let at = visit_index(first.len() as int, left_to_right, steps - 1);
        assert(first[at].header@ == second[at].header@);
    }
    if steps < first.len() {
        let at = visit_index(first.len() as int, left_to_right, steps as int);
        assert(first[at].header@ == second[at].header@);
    }
}

/// The allocation depends on how the columns are declared, on the total
/// width and on the direction, and on nothing else: the widths that an
/// earlier pass calculated do not change what the next pass gives.
pub proof fn lemma_allocation_of_alike(
    first: Seq<DataTableColumn>,
    second: Seq<DataTableColumn>,
    total_width: int,
    left_to_right: bool,
)
    requires
        declared_alike(first, second),
    ensures
        allocation(first, total_width, left_to_right) == allocation(
            second,
            total_width,
            left_to_right,
        ),
{
    let n = first.len();
    lemma_walk_alike(first, second, total_width, left_to_right, n);
    assert forall|i: int| 0 <= i < n implies allocated_width(first, total_width, left_to_right, i)
        == allocated_width(second, total_width, left_to_right, i) by {
        let step = visit_index(n as int, left_to_right, i) as nat;
        lemma_walk_alike(first, second, total_width, left_to_right, step);
    }
    assert(allocation(first, total_width, left_to_right) =~= allocation(
        second,
        total_width,
        left_to_right,
    ));
}

/// The width that `column` takes out of `remaining`.
fn fit_column(column: &DataTableColumn, total_width: u16, remaining: u16) -> (grant: u16)
    requires
        remaining <= total_width,
    ensures
        grant as int == first_grant(*column, total_width as int, remaining as int),
        grant <= remaining,
{
    match column.width_bounds {
        ColumnWidthBounds::Soft { desired, max_percentage } => {
            let min_width: u16 = (column.header.as_str().unicode_len() % 0x1_0000) as u16;
            if min_width > remaining {
                return 0;
            }
            let cap: u16 = match max_percentage {
                Some(percentage) => ceiling_of_percentage(percentage, total_width),
                None => desired,
            };
            let limit: u16 = if cap >= min_width { cap } else { min_width };
            let wanted: u16 = if limit <= desired { limit } else { desired };
            let space: u16 = if wanted <= remaining { wanted } else { remaining };
            if space < min_width {
                0
            } else {
                space
            }
        },
        ColumnWidthBounds::Hard(width) => {
            if width > remaining {
                0
            } else {
                width
            }
        },
    }
}

/// `percentage` percent of `total_width`, rounded up; the largest width
/// where that is more.
pub fn ceiling_of_percentage(percentage: u16, total_width: u16) -> (cells: u16)
    ensures
        cells as int == percentage_ceiling(percentage as int, total_width as int),
{
    assert(percentage as u64 * total_width as u64 <= 0xffff * 0xffff) by (nonlinear_arith)
        requires
            percentage <= 0xffff,
            total_width <= 0xffff,
    ;
    let raw: u64 = (percentage as u64 * total_width as u64 + 99) / 100;
    if raw > 0xffff {
        0xffff
    } else {
        raw as u16
    }
}

/// A sequence of columns that a width can be divided among.
pub trait CalculateColumnWidth {
    /// The columns, in their order.
    spec fn column_seq(&self) -> Seq<DataTableColumn>;

    /// Divides `total_width` among the columns.
    ///
    /// The columns are visited from the left, or from the right where
    /// `left_to_right` is false. A hidden column is passed over. A visible
    /// one takes its width and one cell of gap out of what is left; the first
    /// that does not fit ends the walk, and it and all after it get 0. What
    /// is left at the end is shared evenly among the columns that got a
    /// width, the odd cells going to the first of them in the order of the
    /// walk.
    ///
    /// The result depends on nothing but the arguments. A hidden column gets
    /// 0, and the columns shown fit the total width with one cell of gap
    /// between neighbours.
    fn calculate_column_widths(&self, total_width: u16, left_to_right: bool) -> (widths: Vec<u16>)
        ensures
            as_ints(widths@) == allocation(self.column_seq(), total_width as int, left_to_right),
            forall|i: int|
                0 <= i < self.column_seq().len() && self.column_seq()[i].is_hidden ==> widths@[i]
                    == 0,
            occupied(as_ints(widths@)) <= total_width + 1,
    ;
}

impl CalculateColumnWidth for [DataTableColumn] {
    open spec fn column_seq(&self) -> Seq<DataTableColumn> {
        self@
    }

    fn calculate_column_widths(&self, total_width: u16, left_to_right: bool) -> (widths: Vec<u16>) {
        let columns = self;
        let n = columns.len();
        let ghost cols = columns@;
        let ghost total = total_width as int;
        let mut widths: Vec<u16> = Vec::new();
        while widths.len() < n
            invariant
                widths@.len() <= n,
                forall|i: int| 0 <= i < widths@.len() ==> widths@[i] == 0,
            decreases n - widths@.len(),
        {
            widths.push(0);
        }
        let mut remaining: u16 = total_width;
        let mut stopped = false;
        let mut count: usize = 0;
        let mut step: usize = 0;
        while step < n
            invariant
                n == cols.len(),
                cols == columns@,
                total == total_width as int,
                widths@.len() == n,
                step <= n,
                count <= step,
                remaining <= total_width,
                walk(cols, total, left_to_right, step as nat) == (WalkState {
                    remaining: remaining as int,
                    stopped,
                }),
                count as int == committed(cols, total, left_to_right, step as nat),
                forall|i: int|
                    0 <= i < n ==> #[trigger] widths@[i] as int == if visit_index(
                        n as int,
                        left_to_right,
                        i,
                    ) < step {
                        granted(
                            cols,
                            total,
                            left_to_right,
                            visit_index(n as int, left_to_right, i) as nat,
                        )
                    } else {
                        0
                    },
            decreases n - step,
        {
            let index: usize = if left_to_right { step } else { n - 1 - step };
            let column = &columns[index];
            if !stopped && !column.is_hidden {
                let grant: u16 = fit_column(column, total_width, remaining);
                if grant == 0 {
                    stopped = true;
                } else {
                    widths.set(index, grant);
                    remaining = if remaining > grant { remaining - grant - 1 } else { 0 };
                    count += 1;
                }
            }
            step += 1;
        }
        if count > 0 {
            let bonus: u16 = (remaining as usize / count) as u16;
            let odd: usize = remaining as usize % count;
            assert(remaining as int == count as int * bonus as int + odd as int && (odd > 0
                ==> bonus as int + 1 <= remaining as int)) by (nonlinear_arith)
                requires
                    count > 0,
                    bonus as int == remaining as int / count as int,
                    odd as int == remaining as int % count as int,
            ;
            let mut rank: usize = 0;
            let mut step: usize = 0;
            while step < n
                invariant
                    n == cols.len(),
                    cols == columns@,
                    total == total_width as int,
                    widths@.len() == n,
                    step <= n,
                    rank <= step,
                    count > 0,
                    count as int == committed(cols, total, left_to_right, n as nat),
                    remaining as int == leftover(cols, total, left_to_right),
                    bonus as int == remaining as int / count as int,
                    odd as int == remaining as int % count as int,
                    bonus <= remaining,
                    odd > 0 ==> bonus as int + 1 <= remaining as int,
                    rank as int == committed(cols, total, left_to_right, step as nat),
                    forall|i: int|
                        0 <= i < n ==> #[trigger] widths@[i] as int == if visit_index(
                            n as int,
                            left_to_right,
                            i,
                        ) < step {
                            shared_width(
                                cols,
                                total,
                                left_to_right,
                                visit_index(n as int, left_to_right, i) as nat,
                            )
                        } else {
                            granted(
                                cols,
                                total,
                                left_to_right,
                                visit_index(n as int, left_to_right, i) as nat,
                            )
                        },
                decreases n - step,
            {
                let index: usize = if left_to_right { step } else { n - 1 - step };
                let width: u16 = widths[index];
                if width > 0 {
                    proof {
                        lemma_grant_leaves_leftover(cols, total, left_to_right, step as nat);
                    }
                    let share: u16 = if rank < odd { bonus + 1 } else { bonus };
                    widths.set(index, width + share);
                    rank += 1;
                }
                step += 1;
            }
        } else {
            assert forall|i: int| 0 <= i < n implies widths@[i] as int == allocated_width(
                cols,
                total,
                left_to_right,
                i,
            ) by {
                let at = visit_index(n as int, left_to_right, i) as nat;
                lemma_committed_increases(cols, total, left_to_right, at + 1, n as nat);
                lemma_committed_increases(cols, total, left_to_right, 0, at);
            }
        }
        assert forall|i: int| 0 <= i < n implies widths@[i] as int == allocated_width(
            cols,
            total,
            left_to_right,
            i,
        ) by {}
        assert forall|i: int| 0 <= i < n && columns@[i].is_hidden implies widths@[i] == 0 by {
            assert(visit_index(n as int, left_to_right, visit_index(n as int, left_to_right, i)) == i);
        }
        proof {
            assert(as_ints(widths@) =~= allocation(cols, total, left_to_right));
            lemma_allocation_fits(cols, total, left_to_right);
        }
        widths
    }
}

} // verus!
