//! Table box construction: turns a table's box tree into a grid plan.
//!
//! A table is laid out as a CSS grid. Walking the table's descendants finds
//! its rows, its cells and the sizes of its columns; each cell is placed on
//! the grid row of the row it belongs to and spans as many tracks as its
//! `colspan` and `rowspan` attributes ask for.

use vstd::prelude::*;
use crate::border::{
    collapsed_axis_widths, drawn_width, max_i32, spec_collapsed_axis_widths, used_border_width, Border,
    BorderSide,
    BorderStyle,
};
use crate::span::{spec_parse_u16, parse_u16};

verus! {

/// A box's outer display type.
#[derive(Clone, Copy, Debug, PartialEq, Eq, Structural)]
pub enum DisplayOutside {
    NoBox,
    Inline,
    Block,
    TableCaption,
    InternalTable,
}

/// A box's inner display type.
#[derive(Clone, Copy, Debug, PartialEq, Eq, Structural)]
pub enum DisplayInside {
    NoBox,
    Contents,
    Flow,
    FlowRoot,
    Flex,
    Grid,
    Table,
    TableRowGroup,
    TableColumn,
    TableColumnGroup,
    TableHeaderGroup,
    TableFooterGroup,
    TableRow,
    TableCell,
}

/// `border-collapse`.
#[derive(Clone, Copy, Debug, PartialEq, Eq, Structural)]
pub enum BorderCollapse {
    Separate,
    Collapse,
}

/// `table-layout`.
#[derive(Clone, Copy, Debug, PartialEq, Eq, Structural)]
pub enum TableLayout {
    Auto,
    Fixed,
}

/// A cell's computed `width`, its lengths given as the bits of the `f32`
/// CSS pixel value.
#[derive(Clone, Copy, Debug, PartialEq, Eq, Structural)]
pub enum CellWidth {
    Length(u32),
    Percent(u32),
    Auto,
    /// Any other form (such as a `calc()`), which a first-row cell may not have.
    Other,
}

/// The styles of a box that table construction reads.
#[derive(Clone, Copy, Debug, PartialEq, Eq, Structural)]
pub struct NodeStyle {
    pub display_outside: DisplayOutside,
    pub display_inside: DisplayInside,
    pub border: Border,
    pub width: CellWidth,
    /// The left and right padding resolved against no containing size, as
    /// bits of `f32` CSS pixels.
    pub padding_left: u32,
    pub padding_right: u32,
}

/// A node below a table: its id in the document, whether it is an element,
/// its primary styles if it has any, its `colspan` and `rowspan` attribute
/// values, and its children in document order.
#[derive(Debug)]
pub struct TableNode {
    pub node_id: usize,
    pub is_element: bool,
    pub style: Option<NodeStyle>,
    pub colspan: Option<String>,
    pub rowspan: Option<String>,
    pub children: Vec<TableNode>,
}

/// The table box itself: what its styles say and its children.
#[derive(Debug)]
pub struct TableRoot {
    pub node_id: usize,
    pub table_layout: TableLayout,
    pub border_collapse: BorderCollapse,
    /// `border-spacing`, as bits of `f32` CSS pixels.
    pub border_spacing_width: u32,
    pub border_spacing_height: u32,
    pub border: Border,
    pub children: Vec<TableNode>,
}

/// A grid column's sizing function.
#[derive(Clone, Copy, Debug, PartialEq, Eq, Structural)]
pub enum ColumnSize {
    Auto,
    /// A fixed length: the sum of the cell's width and its left and right
    /// padding (each the bits of an `f32` CSS pixel length).
    Length { width: u32, padding_left: u32, padding_right: u32 },
    /// A percentage, as the bits of an `f32` fraction.
    Percent(u32),
}

/// The bits of the `f32` value `1.0`: a column of the full table width.
pub const FULL_WIDTH: u32 = 0x3f80_0000u32;

/// One end of a grid item's placement on an axis.
#[derive(Clone, Copy, Debug, PartialEq, Eq, Structural)]
pub enum GridPlacement {
    Auto,
    Line(i16),
    Span(u16),
}

/// A grid item of the table: the node it lays out and where it goes.
#[derive(Clone, Copy, Debug, PartialEq, Eq, Structural)]
pub struct TableCell {
    pub node_id: usize,
    pub column_start: GridPlacement,
    pub column_end: GridPlacement,
    pub row_start: GridPlacement,
    pub row_end: GridPlacement,
    /// The cell's own border is dropped (borders are collapsed into the grid).
    pub zero_border: bool,
    /// The cell's `width` is replaced by `auto` (its column carries the size).
    pub auto_width: bool,
}

/// A table row.
#[derive(Clone, Copy, Debug, PartialEq, Eq, Structural)]
pub struct TableRow {
    pub node_id: usize,
}

/// The gap between grid tracks.
#[derive(Clone, Copy, Debug, PartialEq, Eq, Structural)]
pub enum TableGap {
    /// `border-spacing`, as bits of `f32` CSS pixels.
    Spacing { width: u32, height: u32 },
    /// The collapsed border grid's vertical (`x`) and horizontal (`y`) line
    /// widths, in app units.
    Collapsed { x: i32, y: i32 },
}

/// The widths of a collapsed table's outer border, in app units.
#[derive(Clone, Copy, Debug, PartialEq, Eq, Structural)]
pub struct TableEdges {
    pub left: i32,
    pub right: i32,
    pub top: i32,
    pub bottom: i32,
}

/// The grid the table is laid out as.
#[derive(Clone, Debug)]
pub struct TableStyle {
    /// The box is laid out as a table's grid.
    pub item_is_table: bool,
    /// How cells are auto-placed.
    pub auto_flow: GridAutoFlow,
    /// The sizes of implicit columns and rows (there are none).
    pub auto_columns: Vec<ColumnSize>,
    pub auto_rows: Vec<ColumnSize>,
    pub columns: Vec<ColumnSize>,
    /// The number of grid rows, each sized `auto`.
    pub row_count: u16,
    pub gap: TableGap,
    /// The outer border a collapsed table gets; `None` keeps the table's own.
    pub border: Option<TableEdges>,
}

/// Grid auto-placement order.
#[derive(Clone, Copy, Debug, PartialEq, Eq, Structural)]
pub enum GridAutoFlow {
    Row,
    Column,
    RowDense,
    ColumnDense,
}

/// Everything table layout needs: the grid, its items and rows.
#[derive(Clone, Debug)]
pub struct TableContext {
    pub style: TableStyle,
    pub cells: Vec<TableCell>,
    pub rows: Vec<TableRow>,
    /// The border of the first cell, which painting a collapsed grid uses.
    pub border_style: Option<Border>,
    /// The node of that first cell, whose computed border (colours and all)
    /// painting reads.
    pub border_node: Option<usize>,
    pub border_collapse: BorderCollapse,
}

/// Where a walk over a table's descendants has got to: the row and column
/// cursors, what it has collected, the nodes whose construction damage it
/// has cleared, and whether it has met an input that table construction
/// cannot take (a cursor past `u16::MAX`, or a first-row cell whose width has
/// no column form).
pub struct Walk {
    pub row: int,
    pub col: int,
    pub cells: Seq<TableCell>,
    pub rows: Seq<TableRow>,
    pub columns: Seq<ColumnSize>,
    pub first_cell_border: Option<Border>,
    pub first_cell_node: Option<usize>,
    pub first_row_border_y: Option<i32>,
    pub cleared: Seq<usize>,
    pub failed: bool,
}

pub open spec fn walk_start() -> Walk {
    Walk {
        row: 0,
        col: 0,
        cells: Seq::empty(),
        rows: Seq::empty(),
        columns: Seq::empty(),
        first_cell_border: None,
        first_cell_node: None,
        first_row_border_y: None,
        cleared: Seq::empty(),
        failed: false,
    }
}

pub open spec fn fail(s: Walk) -> Walk {
    Walk { failed: true, ..s }
}

pub open spec fn clear_damage(s: Walk, node_id: usize) -> Walk {
    Walk { cleared: s.cleared.push(node_id), ..s }
}

/// The value of a span attribute, if it holds a number.
pub open spec fn spec_attr_number(attr: Option<String>) -> Option<u16> {
    match attr {
        Some(v) => spec_parse_u16(vstd::utf8::encode_utf8(v@)),
        None => None,
    }
}

/// A cell's column span: its `colspan` attribute's number, else 1.
pub open spec fn spec_colspan(node: TableNode) -> u16 {
    match spec_attr_number(node.colspan) {
        Some(n) => n,
        None => 1,
    }
}

/// A cell's row span: its `rowspan` attribute's number clamped to
/// `1..=65534`, else 1.
pub open spec fn spec_rowspan(node: TableNode) -> u16 {
    match spec_attr_number(node.rowspan) {
        Some(n) => if n < 1 {
            1
        } else if n > 65534 {
            65534
        } else {
            n
        },
        None => 1,
    }
}

/// The column a first-row cell gives the table: its length plus its
/// horizontal padding, its percentage if the table layout is fixed, else
/// `auto`.
pub open spec fn spec_column_for(st: NodeStyle, fixed: bool) -> ColumnSize {
    match st.width {
        CellWidth::Length(w) => ColumnSize::Length {
            width: w,
            padding_left: st.padding_left,
            padding_right: st.padding_right,
        },
        CellWidth::Percent(p) => if fixed {
            ColumnSize::Percent(p)
        } else {
            ColumnSize::Auto
        },
        _ => ColumnSize::Auto,
    }
}

/// Entering a table row: it starts the next grid row at column 0, and the
/// first row with a visible horizontal border sets the collapsed grid's
/// horizontal line width.
pub open spec fn spec_start_row(s: Walk, node_id: usize, st: NodeStyle) -> Walk {
    let s1 = clear_damage(s, node_id);
    if s1.row + 1 > u16::MAX {
        fail(s1)
    } else {
        let y = spec_collapsed_axis_widths(st.border).1;
        Walk {
            row: s1.row + 1,
            col: 0,
            first_row_border_y: if s1.first_row_border_y is None && y > 0 {
                Some(y)
            } else {
                s1.first_row_border_y
            },
            rows: s1.rows.push(TableRow { node_id }),
            ..s1
        }
    }
}

/// A table cell: placed on the current row in the first free column, its
/// spans from its attributes; on the first row it also sizes a column.
pub open spec fn spec_place_cell(
    s: Walk,
    node: TableNode,
    st: NodeStyle,
    fixed: bool,
    collapse: bool,
) -> Walk {
    let colspan = spec_colspan(node);
    if (s.row == 1 && st.width == CellWidth::Other) || s.col + colspan > u16::MAX {
        fail(s)
    } else {
        Walk {
            first_cell_border: if s.first_cell_border is None {
                Some(st.border)
            } else {
                s.first_cell_border
            },
            first_cell_node: if s.first_cell_border is None {
                Some(node.node_id)
            } else {
                s.first_cell_node
            },
            columns: if s.row == 1 {
                s.columns.push(spec_column_for(st, fixed))
            } else {
                s.columns
            },
            cells: s.cells.push(
                TableCell {
                    node_id: node.node_id,
                    column_start: GridPlacement::Auto,
                    column_end: GridPlacement::Span(colspan),
                    row_start: GridPlacement::Line(s.row as i16),
                    row_end: GridPlacement::Span(spec_rowspan(node)),
                    zero_border: collapse,
                    auto_width: true,
                },
            ),
            col: s.col + colspan,
            ..s
        }
    }
}

/// A block-level box where a row or cell belongs stands for an anonymous cell
/// on a grid row of its own, spanning every column.
pub open spec fn spec_place_block(s: Walk, node_id: usize) -> Walk {
    if s.row + 1 > u16::MAX {
        fail(s)
    } else {
        Walk {
            row: s.row + 1,
            cells: s.cells.push(
                TableCell {
                    node_id,
                    column_start: GridPlacement::Line(1i16),
                    column_end: GridPlacement::Line(-1i16),
                    row_start: GridPlacement::Line((s.row + 1) as i16),
                    row_end: GridPlacement::Span(1),
                    zero_border: false,
                    auto_width: false,
                },
            ),
            ..s
        }
    }
}

/// The walk over one node and its subtree.
pub open spec fn spec_walk_node(node: TableNode, s: Walk, fixed: bool, collapse: bool) -> Walk
    decreases node, node.children@.len() + 1,
{
    if s.failed || !node.is_element {
        s
    } else {
        match node.style {
            None => s,
            Some(st) => if st.display_outside == DisplayOutside::NoBox {
                clear_damage(s, node.node_id)
            } else {
                match st.display_inside {
                    DisplayInside::TableRowGroup
                    | DisplayInside::TableHeaderGroup
                    | DisplayInside::TableFooterGroup
                    | DisplayInside::Contents => spec_walk_children(
                        node,
                        node.children@.len() as int,
                        s,
                        fixed,
                        collapse,
                        true,
                    ),
                    DisplayInside::TableRow => spec_walk_children(
                        node,
                        node.children@.len() as int,
                        spec_start_row(s, node.node_id, st),
                        fixed,
                        collapse,
                        false,
                    ),
                    DisplayInside::TableCell => spec_place_cell(s, node, st, fixed, collapse),
                    DisplayInside::Flow
                    | DisplayInside::FlowRoot
                    | DisplayInside::Flex
                    | DisplayInside::Grid => spec_place_block(s, node.node_id),
                    _ => clear_damage(s, node.node_id),
                }
            },
        }
    }
}

/// The walk over the first `k` children of `node`, each child's damage
/// cleared before it is walked when `clear` holds.
pub open spec fn spec_walk_children(
    node: TableNode,
    k: int,
    s: Walk,
    fixed: bool,
    collapse: bool,
    clear: bool,
) -> Walk
    decreases node, if k > 0 { k } else { 0 },
{
    if k <= 0 || k > node.children@.len() {
        s
    } else {
        let prev = spec_walk_children(node, k - 1, s, fixed, collapse, clear);
        let child = node.children@[k - 1];
        proof {
            assert(decreases_to!(node => node.children));
        }
        spec_walk_node(
            child,
            if clear {
                clear_damage(prev, child.node_id)
            } else {
                prev
            },
            fixed,
            collapse,
        )
    }
}proof fn lemma_children_failed(node: TableNode, k: int, s: Walk, fixed: bool, collapse: bool, clear: bool)
    requires
        s.failed,
    ensures
        spec_walk_children(node, k, s, fixed, collapse, clear).failed,
    decreases if k > 0 { k } else { 0 },
{
    if k > 0 && k <= node.children@.len() {
        lemma_children_failed(node, k - 1, s, fixed, collapse, clear);
        let prev = spec_walk_children(node, k - 1, s, fixed, collapse, clear);
        let child = node.children@[k - 1];
        let next = if clear { clear_damage(prev, child.node_id) } else { prev };
        assert(next.failed);
        assert(spec_walk_node(child, next, fixed, collapse) == next);
    }
}

/// Once a walk has failed, walking more children keeps it failed.
proof fn lemma_children_stay_failed(
    node: TableNode,
    i: int,
    j: int,
    s: Walk,
    fixed: bool,
    collapse: bool,
    clear: bool,
)
    requires
        0 <= i <= j <= node.children@.len(),
        spec_walk_children(node, i, s, fixed, collapse, clear).failed,
    ensures
        spec_walk_children(node, j, s, fixed, collapse, clear).failed,
    decreases j - i,
{
    if i < j {
        lemma_children_stay_failed(node, i, j - 1, s, fixed, collapse, clear);
        let prev = spec_walk_children(node, j - 1, s, fixed, collapse, clear);
        let child = node.children@[j - 1];
        let next = if clear { clear_damage(prev, child.node_id) } else { prev };
        assert(next.failed);
        assert(spec_walk_node(child, next, fixed, collapse) == next);
    }
}

/// The executable state of a walk.
struct CellCollector {
    row: u16,
    col: u16,
    cells: Vec<TableCell>,
    rows: Vec<TableRow>,
    columns: Vec<ColumnSize>,
    first_cell_border: Option<Border>,
    first_cell_node: Option<usize>,
    first_row_border_y: Option<i32>,
    cleared: Vec<usize>,
    failed: bool,
}

impl CellCollector {
    spec fn view(&self) -> Walk {
        Walk {
            row: self.row as int,
            col: self.col as int,
            cells: self.cells@,
            rows: self.rows@,
            columns: self.columns@,
            first_cell_border: self.first_cell_border,
            first_cell_node: self.first_cell_node,
            first_row_border_y: self.first_row_border_y,
            cleared: self.cleared@,
            failed: self.failed,
        }
    }
}

/// The number in a span attribute, if it holds one.
fn attr_number(attr: &Option<String>) -> (r: Option<u16>)
    ensures
        r == spec_attr_number(*attr),
{
    match attr {
        Some(v) => parse_u16(v.as_str()),
        None => None,
    }
}

/// Walks the first `len` children of `node` in order, clearing each one's
/// damage first when `clear` holds.
fn collect_children(node: &TableNode, fixed: bool, collapse: bool, clear: bool, c: &mut CellCollector)
    requires
        !old(c).failed,
    ensures
        final(c).failed == spec_walk_children(
            *node,
            node.children@.len() as int,
            old(c)@,
            fixed,
            collapse,
            clear,
        ).failed,
        !final(c).failed ==> final(c)@ == spec_walk_children(
            *node,
            node.children@.len() as int,
            old(c)@,
            fixed,
            collapse,
            clear,
        ),
    decreases node, 0int,
{
    let ghost s0 = c@;
    let n = node.children.len();
    let mut i: usize = 0;
    while i < n
        invariant
            i <= n,
            n == node.children@.len(),
            s0 == old(c)@,
            !c.failed,
            c@ == spec_walk_children(*node, i as int, s0, fixed, collapse, clear),
        decreases n - i,
    {
        let child = &node.children[i];
        proof {
            assert(decreases_to!(node => node.children));
        }
        if clear {
            c.cleared.push(child.node_id);
        }
        let ghost pre = c@;
        collect_table_cells(child, fixed, collapse, c);
        assert(spec_walk_children(*node, i + 1, s0, fixed, collapse, clear) == spec_walk_node(
            *child,
            pre,
            fixed,
            collapse,
        ));
        if c.failed {
            proof {
                lemma_children_stay_failed(*node, i + 1, n as int, s0, fixed, collapse, clear);
            }
            return;
        }
        i = i + 1;
    }
}

/// Walks one node below a table and its subtree: rows start grid rows,
/// cells and block-level boxes become grid items, groups pass through to
/// their children, and boxes that generate nothing have their construction
/// damage cleared.
fn collect_table_cells(node: &TableNode, fixed: bool, collapse: bool, c: &mut CellCollector)
    requires
        !old(c).failed,
    ensures
        final(c).failed == spec_walk_node(*node, old(c)@, fixed, collapse).failed,
        !final(c).failed ==> final(c)@ == spec_walk_node(*node, old(c)@, fixed, collapse),
    decreases node, node.children@.len() + 1,
{
    if !node.is_element {
        return;
    }
    let st = match &node.style {
        Some(st) => *st,
        None => {
            return;
        },
    };
    if st.display_outside == DisplayOutside::NoBox {
        c.cleared.push(node.node_id);
        return;
    }
    match st.display_inside {
        DisplayInside::TableRowGroup
        | DisplayInside::TableHeaderGroup
        | DisplayInside::TableFooterGroup
        | DisplayInside::Contents => {
            collect_children(node, fixed, collapse, true, c);
        },
        DisplayInside::TableRow => {
            c.cleared.push(node.node_id);
            if c.row == u16::MAX {
                c.failed = true;
                proof {
                    lemma_children_failed(
                        *node,
                        node.children@.len() as int,
                        spec_start_row(old(c)@, node.node_id, st),
                        fixed,
                        collapse,
                        false,
                    );
                }
                return;
            }
            c.row = c.row + 1;
            c.col = 0;
            if c.first_row_border_y.is_none() {
                let y = collapsed_axis_widths(&st.border).1;
                if y > 0 {
                    c.first_row_border_y = Some(y);
                }
            }
            c.rows.push(TableRow { node_id: node.node_id });
            collect_children(node, fixed, collapse, false, c);
        },
        DisplayInside::TableCell => {
            let colspan: u16 = match attr_number(&node.colspan) {
                Some(n) => n,
                None => 1,
            };
            let rowspan: u16 = match attr_number(&node.rowspan) {
                Some(n) => if n < 1 {
                    1
                } else if n > 65534 {
                    65534
                } else {
                    n
                },
                None => 1,
            };
            if c.first_cell_border.is_none() {
                c.first_cell_border = Some(st.border);
                c.first_cell_node = Some(node.node_id);
            }
            if c.row == 1 {
                let column = match st.width {
                    CellWidth::Length(w) => ColumnSize::Length {
                        width: w,
                        padding_left: st.padding_left,
                        padding_right: st.padding_right,
                    },
                    CellWidth::Percent(p) => if fixed {
                        ColumnSize::Percent(p)
                    } else {
                        ColumnSize::Auto
                    },
                    CellWidth::Auto => ColumnSize::Auto,
                    CellWidth::Other => {
                        c.failed = true;
                        return;
                    },
                };
                c.columns.push(column);
            }
            if colspan > u16::MAX - c.col {
                c.failed = true;
                return;
            }
            c.cells.push(
                TableCell {
                    node_id: node.node_id,
                    column_start: GridPlacement::Auto,
                    column_end: GridPlacement::Span(colspan),
                    row_start: GridPlacement::Line(c.row as i16),
                    row_end: GridPlacement::Span(rowspan),
                    zero_border: collapse,
                    auto_width: true,
                },
            );
            c.col = c.col + colspan;
        },
        DisplayInside::Flow | DisplayInside::FlowRoot | DisplayInside::Flex | DisplayInside::Grid => {
            if c.row == u16::MAX {
                c.failed = true;
                return;
            }
            c.row = c.row + 1;
            c.cells.push(
                TableCell {
                    node_id: node.node_id,
                    column_start: GridPlacement::Line(1i16),
                    column_end: GridPlacement::Line(-1i16),
                    row_start: GridPlacement::Line(c.row as i16),
                    row_end: GridPlacement::Span(1),
                    zero_border: false,
                    auto_width: false,
                },
            );
        },
        _ => {
            c.cleared.push(node.node_id);
        },
    }
}/// The walk over the first `k` children of the table box itself.
pub open spec fn spec_walk_list(list: Seq<TableNode>, k: int, s: Walk, fixed: bool, collapse: bool) -> Walk
    decreases if k > 0 { k } else { 0 },
{
    if k <= 0 || k > list.len() {
        s
    } else {
        spec_walk_node(list[k - 1], spec_walk_list(list, k - 1, s, fixed, collapse), fixed, collapse)
    }
}

/// The walk over all of a table's descendants.
pub open spec fn spec_walk_table(root: TableRoot) -> Walk {
    spec_walk_list(
        root.children@,
        root.children@.len() as int,
        walk_start(),
        root.table_layout == TableLayout::Fixed,
        root.border_collapse == BorderCollapse::Collapse,
    )
}

/// Whether `root` is a table that table construction can take: no cursor
/// passes `u16::MAX`, and no first-row cell has a width without a column form.
pub open spec fn spec_table_is_buildable(root: TableRoot) -> bool {
    !spec_walk_table(root).failed
}

/// The grid columns: the first row's columns, cut or padded with `auto` to
/// the width of the last row; a table of cells but no columns gets one
/// full-width column.
pub open spec fn spec_table_columns(w: Walk) -> Seq<ColumnSize> {
    let resized = Seq::new(
        w.col as nat,
        |i: int|
            if i < w.columns.len() {
                w.columns[i]
            } else {
                ColumnSize::Auto
            },
    );
    if resized.len() == 0 && w.cells.len() > 0 {
        resized.push(ColumnSize::Percent(FULL_WIDTH))
    } else {
        resized
    }
}

/// The collapsed grid's line widths: vertical lines take the first cell's
/// widest visible left/right border; horizontal lines the wider of that
/// cell's top/bottom border and the first visible row border.
pub open spec fn spec_grid_lines(w: Walk) -> (i32, i32) {
    let (cx, cy) = match w.first_cell_border {
        Some(b) => spec_collapsed_axis_widths(b),
        None => (0i32, 0i32),
    };
    let ry = match w.first_row_border_y {
        Some(y) => y,
        None => 0i32,
    };
    (cx, max_i32(cy, ry))
}

/// A collapsed table's outer edge on one side: the wider of the table's own
/// border and the grid line, or nothing when the table's side is `hidden`.
pub open spec fn spec_edge(side: BorderSide, grid: i32) -> i32 {
    if side.style == BorderStyle::Hidden {
        0
    } else {
        max_i32(side.used(), grid)
    }
}

pub open spec fn spec_table_gap(root: TableRoot, w: Walk) -> TableGap {
    if root.border_collapse == BorderCollapse::Collapse {
        TableGap::Collapsed { x: spec_grid_lines(w).0, y: spec_grid_lines(w).1 }
    } else {
        TableGap::Spacing { width: root.border_spacing_width, height: root.border_spacing_height }
    }
}

pub open spec fn spec_table_border(root: TableRoot, w: Walk) -> Option<TableEdges> {
    if root.border_collapse == BorderCollapse::Collapse {
        let (x, y) = spec_grid_lines(w);
        Some(
            TableEdges {
                left: spec_edge(root.border.left, x),
                right: spec_edge(root.border.right, x),
                top: spec_edge(root.border.top, y),
                bottom: spec_edge(root.border.bottom, y),
            },
        )
    } else {
        None
    }
}

/// The table context, layout children and cleared nodes that `root` builds.
pub open spec fn spec_build_result(
    root: TableRoot,
    r: (TableContext, Vec<usize>, Vec<usize>),
) -> bool {
    let w = spec_walk_table(root);
    &&& r.0.style.columns@ == spec_table_columns(w)
    &&& r.0.style.row_count == w.row
    &&& r.0.style.gap == spec_table_gap(root, w)
    &&& r.0.style.border == spec_table_border(root, w)
    &&& r.0.cells@ == w.cells
    &&& r.0.rows@ == w.rows
    &&& r.0.border_style == w.first_cell_border
    &&& r.0.border_node == w.first_cell_node
    &&& r.0.style.item_is_table
    &&& r.0.style.auto_flow == GridAutoFlow::RowDense
    &&& r.0.style.auto_columns@.len() == 0
    &&& r.0.style.auto_rows@.len() == 0
    &&& r.0.border_collapse == root.border_collapse
    &&& r.1@ == w.cells.map_values(|c: TableCell| c.node_id)
    &&& r.2@ == w.cleared
}

proof fn lemma_list_stay_failed(
    list: Seq<TableNode>,
    i: int,
    j: int,
    s: Walk,
    fixed: bool,
    collapse: bool,
)
    requires
        0 <= i <= j <= list.len(),
        spec_walk_list(list, i, s, fixed, collapse).failed,
    ensures
        spec_walk_list(list, j, s, fixed, collapse).failed,
    decreases j - i,
{
    if i < j {
        lemma_list_stay_failed(list, i, j - 1, s, fixed, collapse);
        let prev = spec_walk_list(list, j - 1, s, fixed, collapse);
        assert(spec_walk_node(list[j - 1], prev, fixed, collapse) == prev);
    }
}

/// Walks all of the table's descendants.
fn walk_table(root: &TableRoot) -> (c: CellCollector)
    ensures
        c.failed == spec_walk_table(*root).failed,
        !c.failed ==> c@ == spec_walk_table(*root),
{
    let fixed = match root.table_layout {
        TableLayout::Fixed => true,
        TableLayout::Auto => false,
    };
    let collapse = match root.border_collapse {
        BorderCollapse::Collapse => true,
        BorderCollapse::Separate => false,
    };
    let mut c = CellCollector {
        row: 0,
        col: 0,
        cells: Vec::new(),
        rows: Vec::new(),
        columns: Vec::new(),
        first_cell_border: None,
        first_cell_node: None,
        first_row_border_y: None,
        cleared: Vec::new(),
        failed: false,
    };
    assert(c@ == walk_start());
    let n = root.children.len();
    let mut i: usize = 0;
    while i < n
        invariant
            i <= n,
            n == root.children@.len(),
            fixed == (root.table_layout == TableLayout::Fixed),
            collapse == (root.border_collapse == BorderCollapse::Collapse),
            !c.failed,
            c@ == spec_walk_list(root.children@, i as int, walk_start(), fixed, collapse),
        decreases n - i,
    {
        collect_table_cells(&root.children[i], fixed, collapse, &mut c);
        if c.failed {
            proof {
                lemma_list_stay_failed(root.children@, i + 1, n as int, walk_start(), fixed, collapse);
            }
            return c;
        }
        i = i + 1;
    }
    c
}

/// A collapsed table's outer edge on one side.
fn edge(side: &BorderSide, grid: i32) -> (r: i32)
    ensures
        r == spec_edge(*side, grid),
{
    if side.style == BorderStyle::Hidden {
        0
    } else {
        let w = used_border_width(side.style, side.width);
        if w >= grid {
            w
        } else {
            grid
        }
    }
}

/// Turns a finished walk into the table's grid.
fn assemble(root: &TableRoot, c: CellCollector) -> (r: (TableContext, Vec<usize>, Vec<usize>))
    requires
        !c.failed,
        c@ == spec_walk_table(*root),
    ensures
        spec_build_result(*root, r),
{
    let ghost w = c@;
    let mut columns: Vec<ColumnSize> = Vec::new();
    let ncol = c.col as usize;
    let mut i: usize = 0;
    while i < ncol
        invariant
            i <= ncol,
            ncol == w.col,
            w.columns == c.columns@,
            columns@.len() == i,
            forall|j: int|
                0 <= j < i ==> columns@[j] == (if j < w.columns.len() {
                    w.columns[j]
                } else {
                    ColumnSize::Auto
                }),
        decreases ncol - i,
    {
        if i < c.columns.len() {
            columns.push(c.columns[i]);
        } else {
            columns.push(ColumnSize::Auto);
        }
        i = i + 1;
    }
    if columns.len() == 0 && c.cells.len() > 0 {
        columns.push(ColumnSize::Percent(FULL_WIDTH));
    }
    assert(columns@ =~= spec_table_columns(w));
    let collapse = match root.border_collapse {
        BorderCollapse::Collapse => true,
        BorderCollapse::Separate => false,
    };
    let (gap, border) = if collapse {
        let (cx, cy) = match &c.first_cell_border {
            Some(b) => collapsed_axis_widths(b),
            None => (0i32, 0i32),
        };
        let ry = match c.first_row_border_y {
            Some(y) => y,
            None => 0i32,
        };
        let gy = if cy >= ry { cy } else { ry };
        (
            TableGap::Collapsed { x: cx, y: gy },
            Some(
                TableEdges {
                    left: edge(&root.border.left, cx),
                    right: edge(&root.border.right, cx),
                    top: edge(&root.border.top, gy),
                    bottom: edge(&root.border.bottom, gy),
                },
            ),
        )
    } else {
        (
            TableGap::Spacing {
                width: root.border_spacing_width,
                height: root.border_spacing_height,
            },
            None,
        )
    };
    let mut layout_children: Vec<usize> = Vec::new();
    let mut k: usize = 0;
    while k < c.cells.len()
        invariant
            k <= c.cells@.len(),
            layout_children@.len() == k,
            forall|j: int| 0 <= j < k ==> layout_children@[j] == c.cells@[j].node_id,
        decreases c.cells@.len() - k,
    {
        layout_children.push(c.cells[k].node_id);
        k = k + 1;
    }
    assert(layout_children@ =~= w.cells.map_values(|t: TableCell| t.node_id));
    let context = TableContext {
        style: TableStyle {
            item_is_table: true,
            auto_flow: GridAutoFlow::RowDense,
            auto_columns: Vec::new(),
            auto_rows: Vec::new(),
            columns,
            row_count: c.row,
            gap,
            border,
        },
        cells: c.cells,
        rows: c.rows,
        border_style: c.first_cell_border,
        border_node: c.first_cell_node,
        border_collapse: root.border_collapse,
    };
    (context, layout_children, c.cleared)
}

/// Builds the grid a table is laid out as from the table box and its
/// descendants. Returns the table context, the node ids of the grid items in
/// order (the table's layout children), and the nodes whose construction
/// damage table construction clears.
pub fn build_table_context(root: &TableRoot) -> (r: (TableContext, Vec<usize>, Vec<usize>))
    requires
        spec_table_is_buildable(*root),
    ensures
        spec_build_result(*root, r),
{
    let c = walk_table(root);
    assemble(root, c)
}

/// [`build_table_context`] for any table: `None` exactly when the table
/// cannot be built (see [`spec_table_is_buildable`]).
pub fn try_build_table_context(root: &TableRoot) -> (r: Option<(TableContext, Vec<usize>, Vec<usize>)>)
    ensures
        r is None <==> !spec_table_is_buildable(*root),
        r matches Some(b) ==> spec_build_result(*root, b),
{
    let c = walk_table(root);
    if c.failed {
        None
    } else {
        Some(assemble(root, c))
    }
}/// How many of `cells` stand for anonymous cells (block-level boxes).
pub open spec fn anonymous_cells(cells: Seq<TableCell>) -> int
    decreases cells.len(),
{
    if cells.len() == 0 {
        0
    } else {
        anonymous_cells(cells.drop_last()) + if cells.last().auto_width {
            0int
        } else {
            1int
        }
    }
}

/// Every grid row belongs either to a table row or to one anonymous cell.
pub open spec fn rows_accounted(w: Walk) -> bool {
    w.row == w.rows.len() + anonymous_cells(w.cells)
}

/// A grid item spans between 1 and 65534 rows.
pub open spec fn spans_rows(c: TableCell) -> bool {
    c.row_end matches GridPlacement::Span(r) && 1 <= r <= 65534
}

/// What every step of a walk keeps.
pub open spec fn walk_invariant(w: Walk) -> bool {
    &&& rows_accounted(w)
    &&& w.col >= 0
    &&& forall|i: int| 0 <= i < w.cells.len() ==> spans_rows(#[trigger] w.cells[i])
}

proof fn lemma_push_cell(cells: Seq<TableCell>, c: TableCell)
    ensures
        anonymous_cells(cells.push(c)) == anonymous_cells(cells) + if c.auto_width {
            0int
        } else {
            1int
        },
{
    assert(cells.push(c).drop_last() =~= cells);
}

proof fn lemma_node_invariant(node: TableNode, s: Walk, fixed: bool, collapse: bool)
    requires
        walk_invariant(s),
    ensures
        walk_invariant(spec_walk_node(node, s, fixed, collapse)),
    decreases node, node.children@.len() + 1,
{
    if !s.failed && node.is_element {
        if let Some(st) = node.style {
            if st.display_outside != DisplayOutside::NoBox {
                let len = node.children@.len() as int;
                match st.display_inside {
                    DisplayInside::TableRowGroup
                    | DisplayInside::TableHeaderGroup
                    | DisplayInside::TableFooterGroup
                    | DisplayInside::Contents => {
                        lemma_children_invariant(node, len, s, fixed, collapse, true);
                    },
                    DisplayInside::TableRow => {
                        lemma_children_invariant(
                            node,
                            len,
                            spec_start_row(s, node.node_id, st),
                            fixed,
                            collapse,
                            false,
                        );
                    },
                    DisplayInside::TableCell => {
                        let r = spec_place_cell(s, node, st, fixed, collapse);
                        if !r.failed {
                            lemma_push_cell(s.cells, r.cells.last());
                            assert(r.cells =~= s.cells.push(r.cells.last()));
                            assert(spans_rows(r.cells.last()));
                            assert forall|i: int| 0 <= i < r.cells.len() implies spans_rows(
                                #[trigger] r.cells[i],
                            ) by {
                                if i < s.cells.len() {
                                    assert(r.cells[i] == s.cells[i]);
                                }
                            }
                        }
                    },
                    DisplayInside::Flow
                    | DisplayInside::FlowRoot
                    | DisplayInside::Flex
                    | DisplayInside::Grid => {
                        let r = spec_place_block(s, node.node_id);
                        if !r.failed {
                            lemma_push_cell(s.cells, r.cells.last());
                            assert(r.cells =~= s.cells.push(r.cells.last()));
                            assert(spans_rows(r.cells.last()));
                            assert forall|i: int| 0 <= i < r.cells.len() implies spans_rows(
                                #[trigger] r.cells[i],
                            ) by {
                                if i < s.cells.len() {
                                    assert(r.cells[i] == s.cells[i]);
                                }
                            }
                        }
                    },
                    _ => {},
                }
            }
        }
    }
}

proof fn lemma_children_invariant(
    node: TableNode,
    k: int,
    s: Walk,
    fixed: bool,
    collapse: bool,
    clear: bool,
)
    requires
        walk_invariant(s),
    ensures
        walk_invariant(spec_walk_children(node, k, s, fixed, collapse, clear)),
    decreases node, if k > 0 { k } else { 0 },
{
    if k > 0 && k <= node.children@.len() {
        lemma_children_invariant(node, k - 1, s, fixed, collapse, clear);
        let prev = spec_walk_children(node, k - 1, s, fixed, collapse, clear);
        let child = node.children@[k - 1];
        assert(decreases_to!(node => node.children));
        lemma_node_invariant(
            child,
            if clear {
                clear_damage(prev, child.node_id)
            } else {
                prev
            },
            fixed,
            collapse,
        );
    }
}

proof fn lemma_list_invariant(list: Seq<TableNode>, k: int, s: Walk, fixed: bool, collapse: bool)
    requires
        walk_invariant(s),
    ensures
        walk_invariant(spec_walk_list(list, k, s, fixed, collapse)),
    decreases if k > 0 { k } else { 0 },
{
    if k > 0 && k <= list.len() {
        lemma_list_invariant(list, k - 1, s, fixed, collapse);
        lemma_node_invariant(list[k - 1], spec_walk_list(list, k - 1, s, fixed, collapse), fixed, collapse);
    }
}

/// A built table has one grid row for each table row and one for each
/// anonymous cell (block-level box) it holds, and no others.
pub proof fn law_grid_rows_are_rows_and_anonymous_cells(root: TableRoot)
    ensures
        spec_walk_table(root).row == spec_walk_table(root).rows.len() + anonymous_cells(
            spec_walk_table(root).cells,
        ),
{
    law_every_grid_item_spans_a_row(root);
}

/// Every grid item of a built table spans at least one row and at most
/// 65534: a `rowspan` outside that range is clamped into it.
pub proof fn law_every_grid_item_spans_a_row(root: TableRoot)
    ensures
        walk_invariant(spec_walk_table(root)),
        forall|i: int|
            0 <= i < spec_walk_table(root).cells.len() ==> spans_rows(
                #[trigger] spec_walk_table(root).cells[i],
            ),
{
    lemma_list_invariant(
        root.children@,
        root.children@.len() as int,
        walk_start(),
        root.table_layout == TableLayout::Fixed,
        root.border_collapse == BorderCollapse::Collapse,
    );
}

impl TableContext {
    /// The number of grid items the table lays out.
    pub fn child_count(&self) -> (r: usize)
        ensures
            r == self.cells@.len(),
    {
        self.cells.len()
    }

    /// The indices of the table's grid items.
    pub fn child_ids(&self) -> (r: RangeIter)
        ensures
            r.start == 0,
            r.end == self.cells@.len(),
    {
        RangeIter::new(0, self.cells.len())
    }

    /// The document node that grid item `index` lays out.
    pub fn cell_node_id(&self, index: usize) -> (r: usize)
        requires
            index < self.cells@.len(),
        ensures
            r == self.cells@[index as int].node_id,
    {
        self.cells[index].node_id
    }

    /// Grid item `index`: its node and its placement.
    pub fn cell(&self, index: usize) -> (r: TableCell)
        requires
            index < self.cells@.len(),
        ensures
            r == self.cells@[index as int],
    {
        self.cells[index]
    }
}/// Iterates the indices `start..end` that name a table's grid items.
pub struct RangeIter {
    pub start: usize,
    pub end: usize,
}

impl RangeIter {
    /// The indices still to come, in order.
    pub open spec fn remaining(self) -> Seq<usize> {
        Seq::new(
            if self.start <= self.end {
                (self.end - self.start) as nat
            } else {
                0
            },
            |i: int| (self.start + i) as usize,
        )
    }

    pub fn new(start: usize, end: usize) -> (r: Self)
        ensures
            r.start == start,
            r.end == end,
    {
        RangeIter { start, end }
    }

    /// The next index of the range, or `None` once it is exhausted.
    pub fn next(&mut self) -> (r: Option<usize>)
        ensures
            old(self).remaining().len() == 0 ==> r is None && *final(self) == *old(self),
            old(self).remaining().len() > 0 ==> r == Some(old(self).remaining()[0])
                && final(self).remaining() == old(self).remaining().drop_first(),
            old(self).start < old(self).end ==> r == Some(old(self).start) && final(self).start
                == old(self).start + 1 && final(self).end == old(self).end,
            old(self).start >= old(self).end ==> r is None && final(self).start == old(self).start
                && final(self).end == old(self).end,
    {
        if self.start < self.end {
            let i = self.start;
            self.start = self.start + 1;
            assert(self.remaining() =~= old(self).remaining().drop_first());
            Some(i)
        } else {
            None
        }
    }
}/// A block-level box: an element that generates a box and lays its content
/// out as flow, flow-root, flex or grid.
pub open spec fn is_block_box(n: TableNode) -> bool {
    &&& n.is_element
    &&& n.style matches Some(st) && st.display_outside != DisplayOutside::NoBox && (
    st.display_inside == DisplayInside::Flow || st.display_inside == DisplayInside::FlowRoot
        || st.display_inside == DisplayInside::Flex || st.display_inside == DisplayInside::Grid)
}

proof fn lemma_blocks_keep_no_columns(list: Seq<TableNode>, k: int, fixed: bool, collapse: bool)
    requires
        0 <= k <= list.len(),
        forall|i: int| 0 <= i < list.len() ==> is_block_box(#[trigger] list[i]),
    ensures
        spec_walk_list(list, k, walk_start(), fixed, collapse).col == 0,
        k > 0 ==> spec_walk_list(list, k, walk_start(), fixed, collapse).cells.len() > 0,
        spec_walk_list(list, k, walk_start(), fixed, collapse).columns.len() == 0,
    decreases k,
{
    if k > 0 {
        lemma_blocks_keep_no_columns(list, k - 1, fixed, collapse);
        assert(is_block_box(list[k - 1]));
    }
}

/// A table whose children are all block-level boxes discovers no columns, so
/// it gets one full-width column for the stacked boxes to fill.
pub proof fn law_block_only_table_has_one_full_width_column(root: TableRoot)
    requires
        root.children@.len() > 0,
        forall|i: int| 0 <= i < root.children@.len() ==> is_block_box(#[trigger] root.children@[i]),
    ensures
        spec_table_columns(spec_walk_table(root)) == seq![ColumnSize::Percent(FULL_WIDTH)],
{
    lemma_blocks_keep_no_columns(
        root.children@,
        root.children@.len() as int,
        root.table_layout == TableLayout::Fixed,
        root.border_collapse == BorderCollapse::Collapse,
    );
    let w = spec_walk_table(root);
    assert(spec_table_columns(w) =~= seq![ColumnSize::Percent(FULL_WIDTH)]);
}/// The walk over a row group, a header or footer group or a `display:
/// contents` box is the walk over its children in document order (header and
/// footer groups are not moved), each child's construction damage cleared
/// just before the child is walked.
pub proof fn law_group_walks_its_children_in_order(node: TableNode, s: Walk, fixed: bool, collapse: bool)
    requires
        !s.failed,
        node.is_element,
        node.style matches Some(st) && st.display_outside != DisplayOutside::NoBox && (
        st.display_inside == DisplayInside::TableRowGroup || st.display_inside
            == DisplayInside::TableHeaderGroup || st.display_inside
            == DisplayInside::TableFooterGroup || st.display_inside == DisplayInside::Contents),
    ensures
        spec_walk_node(node, s, fixed, collapse) == spec_walk_children(
            node,
            node.children@.len() as int,
            s,
            fixed,
            collapse,
            true,
        ),
        spec_walk_children(node, 0, s, fixed, collapse, true) == s,
        forall|k: int|
            0 <= k < node.children@.len() ==> spec_walk_node(
                #[trigger] node.children@[k],
                clear_damage(
                    spec_walk_children(node, k, s, fixed, collapse, true),
                    node.children@[k].node_id,
                ),
                fixed,
                collapse,
            ) == spec_walk_children(node, k + 1, s, fixed, collapse, true),
{
}

/// `a` is the start of `b`.
pub open spec fn prefix_of<A>(a: Seq<A>, b: Seq<A>) -> bool {
    &&& a.len() <= b.len()
    &&& forall|i: int| 0 <= i < a.len() ==> #[trigger] a[i] == b[i]
}

/// `new` is a later state of a walk that was at `old`: cells, rows, columns
/// and cleared nodes are only appended to, the row cursor only grows, the
/// first cell border and first row border stay once set, and a failed walk
/// stays failed.
pub open spec fn extends(old: Walk, new: Walk) -> bool {
    &&& prefix_of(old.cells, new.cells)
    &&& prefix_of(old.rows, new.rows)
    &&& prefix_of(old.columns, new.columns)
    &&& prefix_of(old.cleared, new.cleared)
    &&& new.row >= old.row
    &&& old.first_cell_border is Some ==> new.first_cell_border == old.first_cell_border
        && new.first_cell_node == old.first_cell_node
    &&& old.first_row_border_y is Some ==> new.first_row_border_y == old.first_row_border_y
    &&& old.failed ==> new.failed
}

proof fn lemma_extends_trans(a: Walk, b: Walk, c: Walk)
    requires
        extends(a, b),
        extends(b, c),
    ensures
        extends(a, c),
{
    assert forall|i: int| 0 <= i < a.cells.len() implies #[trigger] a.cells[i] == c.cells[i] by {
        assert(a.cells[i] == b.cells[i]);
    }
    assert forall|i: int| 0 <= i < a.rows.len() implies #[trigger] a.rows[i] == c.rows[i] by {
        assert(a.rows[i] == b.rows[i]);
    }
    assert forall|i: int| 0 <= i < a.columns.len() implies #[trigger] a.columns[i] == c.columns[i] by {
        assert(a.columns[i] == b.columns[i]);
    }
    assert forall|i: int| 0 <= i < a.cleared.len() implies #[trigger] a.cleared[i] == c.cleared[i] by {
        assert(a.cleared[i] == b.cleared[i]);
    }
}

proof fn lemma_node_extends(node: TableNode, s: Walk, fixed: bool, collapse: bool)
    ensures
        extends(s, spec_walk_node(node, s, fixed, collapse)),
    decreases node, node.children@.len() + 1,
{
    if !s.failed && node.is_element {
        if let Some(st) = node.style {
            let len = node.children@.len() as int;
            if st.display_outside != DisplayOutside::NoBox {
                match st.display_inside {
                    DisplayInside::TableRowGroup
                    | DisplayInside::TableHeaderGroup
                    | DisplayInside::TableFooterGroup
                    | DisplayInside::Contents => {
                        lemma_children_extends(node, len, s, fixed, collapse, true);
                    },
                    DisplayInside::TableRow => {
                        let s1 = spec_start_row(s, node.node_id, st);
                        lemma_children_extends(node, len, s1, fixed, collapse, false);
                        lemma_extends_trans(
                            s,
                            s1,
                            spec_walk_children(node, len, s1, fixed, collapse, false),
                        );
                    },
                    _ => {},
                }
            }
        }
    }
}

proof fn lemma_children_extends(
    node: TableNode,
    k: int,
    s: Walk,
    fixed: bool,
    collapse: bool,
    clear: bool,
)
    ensures
        extends(s, spec_walk_children(node, k, s, fixed, collapse, clear)),
    decreases node, if k > 0 { k } else { 0 },
{
    if k > 0 && k <= node.children@.len() {
        lemma_children_extends(node, k - 1, s, fixed, collapse, clear);
        let prev = spec_walk_children(node, k - 1, s, fixed, collapse, clear);
        let child = node.children@[k - 1];
        let next = if clear {
            clear_damage(prev, child.node_id)
        } else {
            prev
        };
        assert(decreases_to!(node => node.children));
        lemma_node_extends(child, next, fixed, collapse);
        lemma_extends_trans(s, prev, next);
        lemma_extends_trans(s, next, spec_walk_node(child, next, fixed, collapse));
    }
}

/// Walking a node only adds to what the walk has collected: cells, rows,
/// columns and cleared nodes are appended to, never changed or removed; the
/// row cursor never goes back; and the first cell's border and the first row
/// border, once found, are kept.
pub proof fn law_walk_only_appends(node: TableNode, s: Walk, fixed: bool, collapse: bool)
    ensures
        extends(s, spec_walk_node(node, s, fixed, collapse)),
{
    lemma_node_extends(node, s, fixed, collapse);
}/// The number an attribute's text parses to as a `u16`, if it does.
pub open spec fn parsed_attr(attr: Option<String>) -> Option<u16> {
    match attr {
        Some(v) => spec_parse_u16(vstd::utf8::encode_utf8(v@)),
        None => None,
    }
}

/// Whether `node` is a styled element generating a box of inner display
/// `inside`.
pub open spec fn generates(node: TableNode, inside: DisplayInside) -> bool {
    &&& node.is_element
    &&& node.style matches Some(st) && st.display_outside != DisplayOutside::NoBox
        && st.display_inside == inside
}

/// A table cell becomes one grid item, appended after those before it: placed
/// on the current row line, in the first free column, spanning as many
/// columns as its `colspan` attribute's number (1 when it has none) and as
/// many rows as its `rowspan` attribute's number brought into `1..=65534`
/// (1 when it has none). The column cursor moves past it; the row cursor
/// stays. On the first row it sizes one more column, from its width; the
/// first cell met gives the table its collapsed-border source. The walk fails
/// exactly when the column cursor would pass `u16::MAX` or a first-row cell
/// has a width with no column form.
pub proof fn law_table_cell_becomes_one_grid_item(node: TableNode, s: Walk, fixed: bool, collapse: bool)
    requires
        !s.failed,
        generates(node, DisplayInside::TableCell),
    ensures
        ({
            let r = spec_walk_node(node, s, fixed, collapse);
            let st = node.style.unwrap();
            let colspan: int = match parsed_attr(node.colspan) {
                Some(n) => n as int,
                None => 1,
            };
            &&& r.failed <==> (s.row == 1 && st.width == CellWidth::Other) || s.col + colspan
                > 65535
            &&& !r.failed ==> {
                &&& r.cells.len() == s.cells.len() + 1
                &&& r.cells.drop_last() == s.cells
                &&& r.cells.last().node_id == node.node_id
                &&& r.cells.last().column_start == GridPlacement::Auto
                &&& r.cells.last().column_end == GridPlacement::Span(colspan as u16)
                &&& r.cells.last().row_start == GridPlacement::Line(s.row as i16)
                &&& (parsed_attr(node.rowspan) matches Some(n) ==> (1 <= n <= 65534
                    ==> r.cells.last().row_end == GridPlacement::Span(n)))
                &&& (parsed_attr(node.rowspan) matches Some(n) ==> (n > 65534
                    ==> r.cells.last().row_end == GridPlacement::Span(65534)))
                &&& (parsed_attr(node.rowspan) == Some(0u16) || parsed_attr(node.rowspan) is None
                    ==> r.cells.last().row_end == GridPlacement::Span(1))
                &&& r.cells.last().zero_border == collapse
                &&& r.cells.last().auto_width
                &&& r.col == s.col + colspan
                &&& r.row == s.row
                &&& r.rows == s.rows
                &&& r.cleared == s.cleared
                &&& s.row != 1 ==> r.columns == s.columns
                &&& s.row == 1 ==> r.columns.drop_last() == s.columns && r.columns.len()
                    == s.columns.len() + 1
                &&& s.row == 1 && st.width == CellWidth::Auto ==> r.columns.last()
                    == ColumnSize::Auto
                &&& (st.width matches CellWidth::Length(w) ==> (s.row == 1 ==> r.columns.last()
                    == ColumnSize::Length {
                    width: w,
                    padding_left: st.padding_left,
                    padding_right: st.padding_right,
                }))
                &&& (st.width matches CellWidth::Percent(p) ==> (s.row == 1 ==> r.columns.last() == (
                if fixed {
                    ColumnSize::Percent(p)
                } else {
                    ColumnSize::Auto
                })))
                &&& s.first_cell_border is None ==> r.first_cell_border == Some(st.border)
                    && r.first_cell_node == Some(node.node_id)
                &&& s.first_cell_border is Some ==> r.first_cell_border == s.first_cell_border
                    && r.first_cell_node == s.first_cell_node
                &&& r.first_row_border_y == s.first_row_border_y
            }
        }),
{
    let r = spec_walk_node(node, s, fixed, collapse);
    if !r.failed {
        assert(r.cells.drop_last() =~= s.cells);
        if s.row == 1 {
            assert(r.columns.drop_last() =~= s.columns);
        }
    }
}

/// A block-level box where a row or a cell belongs becomes one grid item on a
/// grid row of its own, one past the current one, spanning every column
/// (lines 1 to -1) and one row; the column cursor and the columns stay. The
/// walk fails exactly when the row cursor would pass `u16::MAX`.
pub proof fn law_block_box_becomes_a_full_width_row(node: TableNode, s: Walk, fixed: bool, collapse: bool)
    requires
        !s.failed,
        is_block_box(node),
    ensures
        ({
            let r = spec_walk_node(node, s, fixed, collapse);
            &&& r.failed <==> s.row + 1 > 65535
            &&& !r.failed ==> {
                &&& r.cells.drop_last() == s.cells
                &&& r.cells.len() == s.cells.len() + 1
                &&& r.cells.last() == TableCell {
                    node_id: node.node_id,
                    column_start: GridPlacement::Line(1i16),
                    column_end: GridPlacement::Line(-1i16),
                    row_start: GridPlacement::Line((s.row + 1) as i16),
                    row_end: GridPlacement::Span(1u16),
                    zero_border: false,
                    auto_width: false,
                }
                &&& r.row == s.row + 1
                &&& r.col == s.col
                &&& r.columns == s.columns
                &&& r.rows == s.rows
                &&& r.cleared == s.cleared
                &&& r.first_cell_border == s.first_cell_border
                &&& r.first_row_border_y == s.first_row_border_y
            }
        }),
{
    let r = spec_walk_node(node, s, fixed, collapse);
    if !r.failed {
        assert(r.cells.drop_last() =~= s.cells);
    }
}

/// A table row clears its own damage, starts the next grid row at column 0,
/// is recorded as a row, and, when no row before it had a visible horizontal
/// border, gives the wider of its drawn top and bottom widths (if not zero)
/// as the collapsed grid's horizontal line width; then its children are
/// walked in order. The walk fails there when the row cursor would pass
/// `u16::MAX`.
pub proof fn law_row_starts_a_grid_row(node: TableNode, s: Walk, fixed: bool, collapse: bool)
    requires
        !s.failed,
        generates(node, DisplayInside::TableRow),
        s.row + 1 <= 65535,
    ensures
        ({
            let st = node.style.unwrap();
            let y = if drawn_width(st.border.top) >= drawn_width(st.border.bottom) {
                drawn_width(st.border.top)
            } else {
                drawn_width(st.border.bottom)
            };
            let start = Walk {
                row: s.row + 1,
                col: 0,
                cells: s.cells,
                rows: s.rows.push(TableRow { node_id: node.node_id }),
                columns: s.columns,
                first_cell_border: s.first_cell_border,
                first_cell_node: s.first_cell_node,
                first_row_border_y: if s.first_row_border_y is None && y > 0 {
                    Some(y)
                } else {
                    s.first_row_border_y
                },
                cleared: s.cleared.push(node.node_id),
                failed: false,
            };
            spec_walk_node(node, s, fixed, collapse) == spec_walk_children(
                node,
                node.children@.len() as int,
                start,
                fixed,
                collapse,
                false,
            )
        }),
{
    let st = node.style.unwrap();
    crate::border::law_collapsed_axis_is_widest_drawn_side(st.border);
}

/// A node that generates no box of its own in a table (not displayed, a
/// column or column group, a nested table box, or an inner display of
/// `none`) only has its construction damage cleared; text and unstyled nodes
/// are passed over untouched.
pub proof fn law_boxless_nodes_only_clear_damage(node: TableNode, s: Walk, fixed: bool, collapse: bool)
    requires
        !s.failed,
    ensures
        !node.is_element || node.style is None ==> spec_walk_node(node, s, fixed, collapse) == s,
        node.style matches Some(st) ==> (node.is_element && (st.display_outside
            == DisplayOutside::NoBox || st.display_inside == DisplayInside::TableColumn
            || st.display_inside == DisplayInside::TableColumnGroup || st.display_inside
            == DisplayInside::Table || st.display_inside == DisplayInside::NoBox)
            ==> spec_walk_node(node, s, fixed, collapse) == (Walk {
            cleared: s.cleared.push(node.node_id),
            ..s
        })),
{
}/// The grid has as many columns as the column cursor ended at: the first
/// row's columns where there are some, `auto` after them. Only a table with
/// grid items but no columns gets one column instead, of the full width.
pub proof fn law_columns_follow_the_cursor(w: Walk)
    requires
        w.col >= 0,
    ensures
        w.col == 0 && w.cells.len() > 0 ==> spec_table_columns(w) == seq![
            ColumnSize::Percent(FULL_WIDTH),
        ],
        !(w.col == 0 && w.cells.len() > 0) ==> spec_table_columns(w).len() == w.col,
        !(w.col == 0 && w.cells.len() > 0) ==> forall|i: int|
            0 <= i < spec_table_columns(w).len() ==> #[trigger] spec_table_columns(w)[i] == if i
                < w.columns.len() {
                w.columns[i]
            } else {
                ColumnSize::Auto
            },
{
    if w.col == 0 && w.cells.len() > 0 {
        assert(spec_table_columns(w) =~= seq![ColumnSize::Percent(FULL_WIDTH)]);
    }
}

/// The widest of two drawn widths.
pub open spec fn wider(a: i32, b: i32) -> i32 {
    if a >= b {
        a
    } else {
        b
    }
}

/// A separated table's gap is its `border-spacing`. A collapsed table's
/// vertical grid lines are as wide as the first cell's wider drawn left or
/// right side, its horizontal lines as the wider of that cell's drawn top or
/// bottom side and the first visible row border (nothing where there is no
/// such cell or row).
pub proof fn law_gap_is_spacing_or_collapsed_lines(root: TableRoot, w: Walk)
    ensures
        root.border_collapse == BorderCollapse::Separate ==> spec_table_gap(root, w)
            == (TableGap::Spacing {
            width: root.border_spacing_width,
            height: root.border_spacing_height,
        }),
        w.first_cell_border matches Some(b) ==> (root.border_collapse == BorderCollapse::Collapse
            ==> spec_table_gap(root, w) == (TableGap::Collapsed {
            x: wider(drawn_width(b.left), drawn_width(b.right)),
            y: wider(
                wider(drawn_width(b.top), drawn_width(b.bottom)),
                match w.first_row_border_y {
                    Some(y) => y,
                    None => 0i32,
                },
            ),
        })),
        w.first_cell_border is None && root.border_collapse == BorderCollapse::Collapse
            ==> spec_table_gap(root, w) == (TableGap::Collapsed {
            x: 0,
            y: wider(
                0,
                match w.first_row_border_y {
                    Some(y) => y,
                    None => 0i32,
                },
            ),
        }),
{
    if let Some(b) = w.first_cell_border {
        crate::border::law_collapsed_axis_is_widest_drawn_side(b);
    }
}

/// A collapsed table's outer edge on a side is nothing when that side of the
/// table is `hidden`; otherwise it is the wider of the side's drawn width and
/// the grid line along it. A separated table keeps its own border.
pub proof fn law_collapsed_edges(root: TableRoot, w: Walk)
    ensures
        root.border_collapse == BorderCollapse::Separate ==> spec_table_border(root, w) is None,
        root.border_collapse == BorderCollapse::Collapse ==> spec_table_border(root, w) is Some,
        forall|side: BorderSide, grid: i32|
            #![trigger spec_edge(side, grid)]
            spec_edge(side, grid) == if side.style == BorderStyle::Hidden {
                0
            } else {
                wider(drawn_width(side), grid)
            },
{
}

/// The layout children are the grid items' nodes, in the items' order.
pub proof fn law_layout_children_are_the_items(root: TableRoot, r: (TableContext, Vec<usize>, Vec<usize>))
    requires
        spec_build_result(root, r),
    ensures
        r.1@.len() == r.0.cells@.len(),
        forall|i: int| 0 <= i < r.1@.len() ==> #[trigger] r.1@[i] == r.0.cells@[i].node_id,
        r.0.cells@ == spec_walk_table(root).cells,
        r.0.style.row_count == spec_walk_table(root).row,
{
}

} // verus!
