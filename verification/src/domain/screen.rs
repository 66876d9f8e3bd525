//! Terminal screens and the rows that differ between two of them.

use vstd::prelude::*;

use crate::domain::TerminalSize;

verus! {

/// Colours and attributes of a cell, packed as on the wire.
#[derive(Clone, Copy, Debug, PartialEq, Eq, Structural)]
pub struct CellStyle {
    pub packed: u64,
}

/// One cell of a screen.
#[derive(Debug, PartialEq, Eq)]
pub struct Cell {
    pub contents: String,
    pub style: CellStyle,
    pub selected: bool,
    pub hyperlink: Option<u32>,
}

/// What a cell shows.
pub struct CellModel {
    pub contents: Seq<char>,
    pub style: CellStyle,
    pub selected: bool,
    pub hyperlink: Option<u32>,
}

impl View for Cell {
    type V = CellModel;

    open spec fn view(&self) -> CellModel {
        CellModel {
            contents: self.contents@,
            style: self.style,
            selected: self.selected,
            hyperlink: self.hyperlink,
        }
    }
}

impl Clone for Cell {
    fn clone(&self) -> (r: Self)
        ensures
            r@ == self@,
    {
        Cell {
            contents: self.contents.clone(),
            style: self.style,
            selected: self.selected,
            hyperlink: self.hyperlink,
        }
    }
}

impl Default for Cell {
    fn default() -> (r: Self)
        ensures
            r@ == (CellModel {
                contents: Seq::empty(),
                style: CellStyle { packed: 0 },
                selected: false,
                hyperlink: None,
            }),
    {
        Cell {
            contents: String::new(),
            style: CellStyle { packed: 0 },
            selected: false,
            hyperlink: None,
        }
    }
}

impl Cell {
    /// Whether two cells show the same.
    pub fn same_as(&self, other: &Cell) -> (r: bool)
        ensures
            r == (self@ == other@),
    {
        let same_link: bool = match (self.hyperlink, other.hyperlink) {
            (Some(a), Some(b)) => a == b,
            (None, None) => true,
            _ => false,
        };
        self.contents == other.contents && self.style == other.style && self.selected
            == other.selected && same_link
    }
}

/// The shape of a cursor.
#[derive(Clone, Copy, Debug, PartialEq, Eq, Structural)]
pub enum CursorShape {
    Block,
    Underline,
    Bar,
}

/// Where the cursor stands and how it looks.
#[derive(Clone, Copy, Debug, PartialEq, Eq, Structural)]
pub struct Cursor {
    pub column: u16,
    pub row: u16,
    pub visible: bool,
    pub shape: CursorShape,
    pub blinking: bool,
}

/// A whole screen at one revision.
#[derive(Debug, PartialEq, Eq)]
pub struct ScreenSnapshot {
    pub revision: u64,
    pub size: TerminalSize,
    pub cells: Vec<Cell>,
    pub cursor: Cursor,
    pub scroll: Option<usize>,
}

/// What a screen shows.
pub struct ScreenModel {
    pub revision: u64,
    pub size: TerminalSize,
    pub cells: Seq<CellModel>,
    pub cursor: Cursor,
    pub scroll: Option<usize>,
}

/// What a list of cells shows.
pub open spec fn cell_views(cells: Seq<Cell>) -> Seq<CellModel> {
    cells.map_values(|c: Cell| c@)
}

impl View for ScreenSnapshot {
    type V = ScreenModel;

    open spec fn view(&self) -> ScreenModel {
        ScreenModel {
            revision: self.revision,
            size: self.size,
            cells: cell_views(self.cells@),
            cursor: self.cursor,
            scroll: self.scroll,
        }
    }
}

impl Clone for ScreenSnapshot {
    fn clone(&self) -> (r: Self)
        ensures
            r@ == self@,
    {
        let cells = copy_cells(&self.cells, 0, self.cells.len());
        assert(self.cells@.subrange(0, self.cells@.len() as int) =~= self.cells@);
        ScreenSnapshot {
            revision: self.revision,
            size: self.size,
            cells,
            cursor: self.cursor,
            scroll: self.scroll,
        }
    }
}

/// Copies a range of cells.
fn copy_cells(cells: &Vec<Cell>, start: usize, end: usize) -> (r: Vec<Cell>)
    requires
        start <= end <= cells@.len(),
    ensures
        cell_views(r@) == cell_views(cells@.subrange(start as int, end as int)),
{
    let mut out: Vec<Cell> = Vec::new();
    let mut i: usize = start;
    while i < end
        invariant
            start <= i <= end <= cells@.len(),
            out@.len() == i - start,
            forall|j: int| 0 <= j < out@.len() ==> (#[trigger] out@[j])@ == cells@[start + j]@,
        decreases end - i,
    {
        out.push(cells[i].clone());
        i += 1;
    }
    assert(cell_views(out@) =~= cell_views(cells@.subrange(start as int, end as int)));
    out
}

/// A screen has one cell for every position of its grid.
pub open spec fn complete(screen: ScreenModel) -> bool {
    screen.cells.len() == screen.size.columns * screen.size.rows
}

/// One row of a screen.
pub open spec fn row_of(screen: ScreenModel, row: int) -> Seq<CellModel> {
    screen.cells.subrange(row * screen.size.columns, (row + 1) * screen.size.columns)
}

impl ScreenSnapshot {
    /// A screen, when there is one cell for every position of the grid.
    pub fn new(revision: u64, size: TerminalSize, cells: Vec<Cell>, cursor: Cursor) -> (r: Option<
        Self,
    >)
        ensures
            r is Some <==> cells@.len() == size.columns * size.rows,
            r matches Some(screen) ==> screen@ == (ScreenModel {
                revision,
                size,
                cells: cell_views(cells@),
                cursor,
                scroll: None,
            }) && complete(screen@),
    {
        assert(0 <= size.columns * size.rows <= 0xffff * 0xffff) by (nonlinear_arith)
            requires
                0 <= size.columns <= 0xffff,
                0 <= size.rows <= 0xffff,
        ;
        let count: u64 = size.columns as u64 * size.rows as u64;
        if cells.len() as u64 != count {
            return None;
        }
        Some(ScreenSnapshot { revision, size, cells, cursor, scroll: None })
    }
}

/// A row that changed, with its new cells.
#[derive(Debug, PartialEq, Eq)]
pub struct DeltaRow {
    pub index: u16,
    pub cells: Vec<Cell>,
}

/// A row that changed.
pub struct RowModel {
    pub index: int,
    pub cells: Seq<CellModel>,
}

impl View for DeltaRow {
    type V = RowModel;

    open spec fn view(&self) -> RowModel {
        RowModel { index: self.index as int, cells: cell_views(self.cells@) }
    }
}

/// What changed rows show.
pub open spec fn row_views(rows: Seq<DeltaRow>) -> Seq<RowModel> {
    rows.map_values(|row: DeltaRow| row@)
}

/// The rows among the first ones that differ between two screens of one size,
/// in order, each with its new cells.
pub open spec fn changed_rows(previous: ScreenModel, next: ScreenModel, count: int) -> Seq<RowModel>
    decreases count,
{
    if count <= 0 {
        Seq::empty()
    } else {
        let before = changed_rows(previous, next, count - 1);
        if row_of(previous, count - 1) == row_of(next, count - 1) {
            before
        } else {
            before.push(RowModel { index: count - 1, cells: row_of(next, count - 1) })
        }
    }
}

/// Whether so many changed rows make a delta cost more than the whole screen:
/// more than three fifths of the rows.
pub open spec fn too_many(changed: int, rows: int) -> bool {
    changed * 5 > rows * 3
}

fn same_cells(left: &Vec<Cell>, right: &Vec<Cell>, start: usize, end: usize) -> (r: bool)
    requires
        start <= end <= left@.len(),
        end <= right@.len(),
    ensures
        r == (cell_views(left@).subrange(start as int, end as int) == cell_views(right@).subrange(
            start as int,
            end as int,
        )),
{
    let mut i: usize = start;
    let ghost a = cell_views(left@).subrange(start as int, end as int);
    let ghost b = cell_views(right@).subrange(start as int, end as int);
    while i < end
        invariant
            start <= i <= end <= left@.len(),
            end <= right@.len(),
            a == cell_views(left@).subrange(start as int, end as int),
            b == cell_views(right@).subrange(start as int, end as int),
            forall|j: int| 0 <= j < i - start ==> a[j] == b[j],
        decreases end - i,
    {
        if !left[i].same_as(&right[i]) {
            assert(a[i - start] != b[i - start]);
            return false;
        }
        assert(a[i - start] == b[i - start]);
        i += 1;
    }
    assert(a =~= b);
    true
}

/// Rows that differ between `previous` and `next`, or `None` where they are more
/// than three fifths of all rows. Callers must already know that both have one
/// size.
pub fn diff_rows(previous: &ScreenSnapshot, next: &ScreenSnapshot) -> (r: Option<Vec<DeltaRow>>)
    requires
        previous.size == next.size,
        complete(previous@),
        complete(next@),
    ensures
        r is None <==> too_many(
            changed_rows(previous@, next@, next.size.rows as int).len() as int,
            next.size.rows as int,
        ),
        r matches Some(rows) ==> row_views(rows@) == changed_rows(
            previous@,
            next@,
            next.size.rows as int,
        ),
{
    let columns: usize = next.size.columns as usize;
    let rows: usize = next.size.rows as usize;
    let mut changed: Vec<DeltaRow> = Vec::new();
    let mut row: usize = 0;
    assert(row_views(changed@) =~= Seq::<RowModel>::empty());
    while row < rows
        invariant
            row <= rows,
            rows == next.size.rows,
            columns == next.size.columns,
            previous.size == next.size,
            complete(previous@),
            complete(next@),
            changed@.len() <= row,
            row_views(changed@) == changed_rows(previous@, next@, row as int),
        decreases rows - row,
    {
        assert(0 <= row * columns && (row + 1) * columns == row * columns + columns && (row + 1)
            * columns <= rows * columns && rows * columns <= 0xffff * 0xffff) by (nonlinear_arith)
            requires
                0 <= row < rows,
                rows <= 0xffff,
                0 <= columns <= 0xffff,
        ;
        assert(columns * rows == rows * columns) by (nonlinear_arith);
        assert(previous.cells@.len() == rows * columns);
        assert(next.cells@.len() == rows * columns);
        let start: usize = row * columns;
        let end: usize = start + columns;
        let ghost before = changed@;
        if !same_cells(&previous.cells, &next.cells, start, end) {
            let cells = copy_cells(&next.cells, start, end);
            assert(cell_views(next.cells@.subrange(start as int, end as int)) =~= cell_views(
                next.cells@,
            ).subrange(start as int, end as int));
            changed.push(DeltaRow { index: row as u16, cells });
            assert(row_views(changed@) =~= row_views(before).push(changed@.last()@));
        }
        row += 1;
    }
    if changed.len() as u64 * 5 > rows as u64 * 3 {
        return None;
    }
    Some(changed)
}

/// What changed between two revisions of a screen.
#[derive(Debug, PartialEq, Eq)]
pub struct ScreenDelta {
    pub revision: u64,
    pub base_revision: u64,
    pub size: TerminalSize,
    pub rows: Vec<DeltaRow>,
    pub cursor: Cursor,
    pub scroll: Option<usize>,
}

/// A screen with rows replaced.
pub open spec fn spliced(cells: Seq<CellModel>, columns: int, rows: Seq<RowModel>) -> Seq<CellModel>
    decreases rows.len(),
{
    if rows.len() == 0 {
        cells
    } else {
        let before = spliced(cells, columns, rows.drop_last());
        let row = rows.last();
        Seq::new(
            before.len(),
            |i: int|
                if row.index * columns <= i < (row.index + 1) * columns {
                    row.cells[i - row.index * columns]
                } else {
                    before[i]
                },
        )
    }
}

proof fn lemma_spliced_prefix(previous: ScreenModel, next: ScreenModel, count: int)
    requires
        previous.size == next.size,
        complete(previous),
        complete(next),
        0 <= count <= next.size.rows,
    ensures
        ({
            let rows = changed_rows(previous, next, count);
            let result = spliced(previous.cells, next.size.columns as int, rows);
            &&& result.len() == previous.cells.len()
            &&& forall|i: int|
                0 <= i < result.len() ==> #[trigger] result[i] == if i < count
                    * next.size.columns {
                    next.cells[i]
                } else {
                    previous.cells[i]
                }
        }),
    decreases count,
{
    let columns = next.size.columns as int;
    assert(0 * columns == 0);
    if count > 0 {
        lemma_spliced_prefix(previous, next, count - 1);
        let before = changed_rows(previous, next, count - 1);
        let rows = changed_rows(previous, next, count);
        let done = spliced(previous.cells, columns, before);
        let result = spliced(previous.cells, columns, rows);
        let start = (count - 1) * columns;
        let end = count * columns;
        assert(end == start + columns && 0 <= start && end <= columns * next.size.rows)
            by (nonlinear_arith)
            requires
                start == (count - 1) * columns,
                end == count * columns,
                0 < count <= next.size.rows,
                0 <= columns,
        ;
        let old_row = row_of(previous, count - 1);
        let new_row = row_of(next, count - 1);
        assert(((count - 1) + 1) * columns == end);
        if old_row == new_row {
            assert forall|i: int| 0 <= i < result.len() implies #[trigger] result[i] == if i
                < end {
                next.cells[i]
            } else {
                previous.cells[i]
            } by {
                if start <= i < end {
                    assert(old_row[i - start] == previous.cells[i]);
                    assert(new_row[i - start] == next.cells[i]);
                }
            }
        } else {
            assert(rows.drop_last() =~= before);
            assert forall|i: int| 0 <= i < result.len() implies #[trigger] result[i] == if i
                < end {
                next.cells[i]
            } else {
                previous.cells[i]
            } by {
                if start <= i < end {
                    assert(new_row[i - start] == next.cells[i]);
                }
            }
        }
    }
}

/// Splicing the changed rows into the earlier screen gives exactly the later
/// one.
pub proof fn law_delta_rebuilds_the_screen(previous: ScreenModel, next: ScreenModel)
    requires
        previous.size == next.size,
        complete(previous),
        complete(next),
    ensures
        spliced(
            previous.cells,
            next.size.columns as int,
            changed_rows(previous, next, next.size.rows as int),
        ) == next.cells,
{
    let rows = changed_rows(previous, next, next.size.rows as int);
    lemma_spliced_prefix(previous, next, next.size.rows as int);
    assert(next.size.rows * next.size.columns == next.size.columns * next.size.rows)
        by (nonlinear_arith);
    assert(spliced(previous.cells, next.size.columns as int, rows) =~= next.cells);
}

/// The rows among the first ones that differ between two screens.
pub open spec fn differing(previous: ScreenModel, next: ScreenModel, count: int) -> Set<int> {
    Set::new(|row: int| 0 <= row < count && row_of(previous, row) != row_of(next, row))
}

/// The rows that a difference holds are those that differ, each once, in order and
/// with its new cells.
pub proof fn lemma_changed_rows_are_counted(previous: ScreenModel, next: ScreenModel, count: int)
    requires
        0 <= count,
    ensures
        differing(previous, next, count).finite(),
        changed_rows(previous, next, count).len() == differing(previous, next, count).len(),
        forall|i: int|
            0 <= i < changed_rows(previous, next, count).len() ==> differing(
                previous,
                next,
                count,
            ).contains((#[trigger] changed_rows(previous, next, count)[i]).index) && changed_rows(
                previous,
                next,
                count,
            )[i].cells == row_of(next, changed_rows(previous, next, count)[i].index),
        forall|i: int, j: int|
            0 <= i < j < changed_rows(previous, next, count).len() ==> (#[trigger] changed_rows(
                previous,
                next,
                count,
            )[i]).index < (#[trigger] changed_rows(previous, next, count)[j]).index,
    decreases count,
{
    let all = differing(previous, next, count);
    if count == 0 {
        assert(all =~= Set::empty());
    } else {
        lemma_changed_rows_are_counted(previous, next, count - 1);
        let before = differing(previous, next, count - 1);
        if row_of(previous, count - 1) == row_of(next, count - 1) {
            assert(all =~= before);
        } else {
            assert(all =~= before.insert(count - 1));
            assert(!before.contains(count - 1));
        }
    }
}

} // verus!
