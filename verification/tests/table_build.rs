use blitz_layout::border::{Border, BorderSide, BorderStyle};
use blitz_layout::table::{
    build_table_context, try_build_table_context, BorderCollapse, CellWidth, ColumnSize,
    DisplayInside, DisplayOutside, GridAutoFlow, GridPlacement, NodeStyle, TableEdges, TableGap, TableLayout,
    TableNode, TableRoot, TableRow, FULL_WIDTH,
};

fn side(style: BorderStyle, width: i32) -> BorderSide {
    BorderSide { style, width }
}

fn border_all(style: BorderStyle, width: i32) -> Border {
    Border {
        top: side(style, width),
        right: side(style, width),
        bottom: side(style, width),
        left: side(style, width),
    }
}

fn no_border() -> Border {
    border_all(BorderStyle::NoBorder, 180)
}

fn style(inside: DisplayInside) -> NodeStyle {
    NodeStyle {
        display_outside: DisplayOutside::InternalTable,
        display_inside: inside,
        border: no_border(),
        width: CellWidth::Auto,
        padding_left: 0,
        padding_right: 0,
    }
}

fn element(node_id: usize, inside: DisplayInside, children: Vec<TableNode>) -> TableNode {
    TableNode {
        node_id,
        is_element: true,
        style: Some(style(inside)),
        colspan: None,
        rowspan: None,
        children,
    }
}

fn cell(node_id: usize) -> TableNode {
    element(node_id, DisplayInside::TableCell, Vec::new())
}

fn cell_with(node_id: usize, width: CellWidth, colspan: Option<&str>, rowspan: Option<&str>) -> TableNode {
    let mut c = cell(node_id);
    if let Some(s) = c.style.as_mut() {
        s.width = width;
    }
    c.colspan = colspan.map(|s| s.to_string());
    c.rowspan = rowspan.map(|s| s.to_string());
    c
}

fn row(node_id: usize, cells: Vec<TableNode>) -> TableNode {
    element(node_id, DisplayInside::TableRow, cells)
}

fn table(children: Vec<TableNode>) -> TableRoot {
    TableRoot {
        node_id: 1,
        table_layout: TableLayout::Auto,
        border_collapse: BorderCollapse::Separate,
        border_spacing_width: 2.0f32.to_bits(),
        border_spacing_height: 3.0f32.to_bits(),
        border: no_border(),
        children,
    }
}

#[test]
fn a_two_by_two_table_is_a_two_by_two_grid() {
    let root = table(vec![element(
        10,
        DisplayInside::TableRowGroup,
        vec![row(20, vec![cell(21), cell(22)]), row(30, vec![cell(31), cell(32)])],
    )]);
    let (ctx, children, cleared) = build_table_context(&root);
    assert_eq!(ctx.style.columns, vec![ColumnSize::Auto, ColumnSize::Auto]);
    assert_eq!(ctx.style.row_count, 2);
    assert_eq!(ctx.rows, vec![TableRow { node_id: 20 }, TableRow { node_id: 30 }]);
    assert_eq!(children, vec![21, 22, 31, 32]);
    assert_eq!(ctx.cells[2].row_start, GridPlacement::Line(2));
    assert_eq!(ctx.cells[2].row_end, GridPlacement::Span(1));
    assert_eq!(ctx.cells[2].column_start, GridPlacement::Auto);
    assert_eq!(ctx.cells[2].column_end, GridPlacement::Span(1));
    assert!(ctx.cells.iter().all(|c| c.auto_width && !c.zero_border));
    // The row group's children are cleared before they are walked, then each row.
    assert_eq!(cleared, vec![20, 20, 30, 30]);
    assert_eq!(ctx.style.gap, TableGap::Spacing { width: 2.0f32.to_bits(), height: 3.0f32.to_bits() });
    assert_eq!(ctx.style.border, None);
    assert_eq!(ctx.border_style, Some(no_border()));
    assert_eq!(ctx.border_node, Some(21));
    assert_eq!(ctx.border_collapse, BorderCollapse::Separate);
    assert!(ctx.style.item_is_table);
    assert_eq!(ctx.style.auto_flow, GridAutoFlow::RowDense);
    assert!(ctx.style.auto_columns.is_empty() && ctx.style.auto_rows.is_empty());
}

#[test]
fn span_attributes_are_parsed_and_rowspan_is_clamped() {
    let root = table(vec![row(
        20,
        vec![
            cell_with(21, CellWidth::Auto, Some("2"), Some("0")),
            cell_with(22, CellWidth::Auto, Some("+3"), Some("70000")),
            cell_with(23, CellWidth::Auto, Some("x"), Some("65535")),
            cell_with(24, CellWidth::Auto, Some("0"), Some(" 2")),
        ],
    )]);
    let (ctx, _, _) = build_table_context(&root);
    let spans: Vec<(GridPlacement, GridPlacement)> =
        ctx.cells.iter().map(|c| (c.column_end, c.row_end)).collect();
    assert_eq!(
        spans,
        vec![
            (GridPlacement::Span(2), GridPlacement::Span(1)),
            (GridPlacement::Span(3), GridPlacement::Span(1)),
            (GridPlacement::Span(1), GridPlacement::Span(65534)),
            (GridPlacement::Span(0), GridPlacement::Span(1)),
        ]
    );
    // The column cursor advanced by 2 + 3 + 1 + 0, so the first row's four columns are
    // padded with `auto` to six.
    assert_eq!(ctx.style.columns.len(), 6);
}

#[test]
fn columns_are_cut_to_the_last_rows_width() {
    let root = table(vec![
        row(20, vec![cell(21), cell(22), cell(23)]),
        row(30, vec![cell(31)]),
    ]);
    let (ctx, _, _) = build_table_context(&root);
    assert_eq!(ctx.style.columns, vec![ColumnSize::Auto]);
}

#[test]
fn first_row_widths_size_the_columns() {
    let mut root = table(vec![row(
        20,
        vec![
            cell_with(21, CellWidth::Length(50.0f32.to_bits()), None, None),
            cell_with(22, CellWidth::Percent(0.25f32.to_bits()), None, None),
            cell_with(23, CellWidth::Auto, None, None),
        ],
    )]);
    if let Some(s) = root.children[0].children[0].style.as_mut() {
        s.padding_left = 4.0f32.to_bits();
        s.padding_right = 6.0f32.to_bits();
    }
    let (auto_ctx, _, _) = build_table_context(&root);
    assert_eq!(
        auto_ctx.style.columns,
        vec![
            ColumnSize::Length {
                width: 50.0f32.to_bits(),
                padding_left: 4.0f32.to_bits(),
                padding_right: 6.0f32.to_bits()
            },
            ColumnSize::Auto,
            ColumnSize::Auto,
        ]
    );
    root.table_layout = TableLayout::Fixed;
    let (fixed_ctx, _, _) = build_table_context(&root);
    assert_eq!(fixed_ctx.style.columns[1], ColumnSize::Percent(0.25f32.to_bits()));
}

#[test]
fn block_children_become_full_width_anonymous_cells() {
    let root = table(vec![
        element(11, DisplayInside::Flow, Vec::new()),
        element(12, DisplayInside::Flex, Vec::new()),
    ]);
    let (ctx, children, _) = build_table_context(&root);
    assert_eq!(ctx.style.columns, vec![ColumnSize::Percent(FULL_WIDTH)]);
    assert_eq!(f32::from_bits(FULL_WIDTH), 1.0);
    assert_eq!(ctx.style.row_count, 2);
    assert!(ctx.rows.is_empty());
    assert_eq!(children, vec![11, 12]);
    assert_eq!(ctx.cells[1].column_start, GridPlacement::Line(1));
    assert_eq!(ctx.cells[1].column_end, GridPlacement::Line(-1));
    assert_eq!(ctx.cells[1].row_start, GridPlacement::Line(2));
    assert!(!ctx.cells[1].auto_width);
    // Grid rows are table rows plus anonymous cells.
    assert_eq!(ctx.style.row_count as usize, ctx.rows.len() + 2);
}

#[test]
fn a_trailing_block_keeps_the_column_cursor() {
    let root = table(vec![
        row(20, vec![cell(21), cell(22)]),
        element(11, DisplayInside::Flow, Vec::new()),
    ]);
    let (ctx, _, _) = build_table_context(&root);
    assert_eq!(ctx.style.columns.len(), 2);
    assert_eq!(ctx.style.row_count, 2);
    assert_eq!(ctx.cells[2].row_start, GridPlacement::Line(2));
}

#[test]
fn boxes_that_generate_nothing_are_cleared_and_skipped() {
    let mut hidden = cell(40);
    if let Some(s) = hidden.style.as_mut() {
        s.display_outside = DisplayOutside::NoBox;
    }
    let text = TableNode {
        node_id: 41,
        is_element: false,
        style: None,
        colspan: None,
        rowspan: None,
        children: Vec::new(),
    };
    let unstyled = TableNode {
        node_id: 42,
        is_element: true,
        style: None,
        colspan: None,
        rowspan: None,
        children: Vec::new(),
    };
    let root = table(vec![
        hidden,
        text,
        unstyled,
        element(43, DisplayInside::TableColumnGroup, Vec::new()),
        element(44, DisplayInside::NoBox, Vec::new()),
    ]);
    let (ctx, children, cleared) = build_table_context(&root);
    assert!(ctx.cells.is_empty());
    assert!(children.is_empty());
    assert!(ctx.style.columns.is_empty());
    assert_eq!(ctx.border_style, None);
    assert_eq!(ctx.border_node, None);
    assert_eq!(cleared, vec![40, 43, 44]);
}

#[test]
fn a_collapsed_table_takes_its_grid_from_the_first_cell_and_row() {
    let mut first = cell(21);
    if let Some(s) = first.style.as_mut() {
        s.border = Border {
            top: side(BorderStyle::Solid, 60),
            right: side(BorderStyle::Solid, 120),
            bottom: side(BorderStyle::Dashed, 30),
            left: side(BorderStyle::Hidden, 600),
        };
    }
    let mut r = row(20, vec![first, cell(22)]);
    if let Some(s) = r.style.as_mut() {
        s.border.bottom = side(BorderStyle::Solid, 90);
    }
    let mut root = table(vec![r]);
    root.border_collapse = BorderCollapse::Collapse;
    root.border = Border {
        top: side(BorderStyle::Solid, 30),
        right: side(BorderStyle::Hidden, 300),
        bottom: side(BorderStyle::Solid, 300),
        left: side(BorderStyle::NoBorder, 300),
    };
    let ctx = try_build_table_context(&root).unwrap().0;
    assert_eq!(ctx.style.gap, TableGap::Collapsed { x: 120, y: 90 });
    assert_eq!(
        ctx.style.border,
        Some(TableEdges { left: 120, right: 0, top: 90, bottom: 300 })
    );
    assert!(ctx.cells.iter().all(|c| c.zero_border));
}

#[test]
fn a_calc_width_in_the_first_row_cannot_be_built() {
    let root = table(vec![row(20, vec![cell_with(21, CellWidth::Other, None, None)])]);
    assert!(try_build_table_context(&root).is_none());
    // Outside the first row the width is never read.
    let later = table(vec![
        row(20, vec![cell(21)]),
        row(30, vec![cell_with(31, CellWidth::Other, None, None)]),
    ]);
    assert!(try_build_table_context(&later).is_some());
}

#[test]
fn a_column_cursor_past_u16_cannot_be_built() {
    let root = table(vec![row(
        20,
        vec![
            cell_with(21, CellWidth::Auto, Some("65535"), None),
            cell_with(22, CellWidth::Auto, Some("1"), None),
        ],
    )]);
    assert!(try_build_table_context(&root).is_none());
}

#[test]
fn grid_items_are_looked_up_by_index() {
    let root = table(vec![row(20, vec![cell(21), cell(22)])]);
    let (ctx, _, _) = build_table_context(&root);
    assert_eq!(ctx.child_count(), 2);
    assert_eq!(ctx.cell_node_id(1), 22);
    assert_eq!(ctx.cell(0).node_id, 21);
    let mut ids = ctx.child_ids();
    assert_eq!(ids.next(), Some(0));
    assert_eq!(ids.next(), Some(1));
    assert_eq!(ids.next(), None);
    assert_eq!(ids.next(), None);
}

#[test]
fn a_row_cursor_past_u16_cannot_be_built() {
    let blocks = |n: usize| -> Vec<TableNode> {
        (0..n).map(|i| element(100 + i, DisplayInside::Flow, Vec::new())).collect()
    };
    let fits = try_build_table_context(&table(blocks(65535))).expect("65535 grid rows fit");
    assert_eq!(fits.0.style.row_count, 65535);
    // Grid lines are 16-bit signed: the last row's line wraps as the cursor's cast does.
    assert_eq!(fits.0.cells[65534].row_start, GridPlacement::Line(65535u16 as i16));
    assert!(try_build_table_context(&table(blocks(65536))).is_none());
}

#[test]
fn groups_walk_children_in_order_and_first_borders_stay() {
    let mut first = cell(21);
    if let Some(s) = first.style.as_mut() {
        s.border = border_all(BorderStyle::Solid, 60);
    }
    let mut footer_row = row(40, vec![cell(41)]);
    if let Some(s) = footer_row.style.as_mut() {
        s.border.top = side(BorderStyle::Solid, 120);
    }
    let mut header_row = row(20, vec![first, cell(22)]);
    if let Some(s) = header_row.style.as_mut() {
        s.border.top = side(BorderStyle::Solid, 30);
    }
    let mut root = table(vec![
        element(10, DisplayInside::TableFooterGroup, vec![footer_row]),
        element(11, DisplayInside::TableHeaderGroup, vec![header_row]),
    ]);
    root.border_collapse = BorderCollapse::Collapse;
    let (ctx, children, cleared) = build_table_context(&root);
    // The footer group comes first in the document, so it is walked first.
    assert_eq!(children, vec![41, 21, 22]);
    assert_eq!(ctx.rows, vec![TableRow { node_id: 40 }, TableRow { node_id: 20 }]);
    assert_eq!(cleared, vec![40, 40, 20, 20]);
    // The first cell and the first visible row border were met in the footer and stay.
    assert_eq!(ctx.border_node, Some(41));
    assert_eq!(ctx.border_style, Some(no_border()));
    assert_eq!(ctx.style.gap, TableGap::Collapsed { x: 0, y: 120 });
}
