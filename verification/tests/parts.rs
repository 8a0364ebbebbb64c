use blitz_layout::border::{
    collapsed_axis_widths, used_border_width, Border, BorderSide, BorderStyle,
};
use blitz_layout::cull::{
    filter_reach, ink_margin, ink_reach, paint_order, reaches, scrollable_overflow,
    shadow_reach, BoxShadow, FilterInk, PaintNode, Rect,
};
use blitz_layout::span::parse_u16;
use blitz_layout::table::RangeIter;

#[test]
fn parse_u16_follows_str_parse() {
    for text in ["0", "7", "+12", "65535", "65536", "", "+", "-", "-0", "1 ", " 1", "1e3", "٣", "007", "99999999999"] {
        assert_eq!(parse_u16(text), text.parse::<u16>().ok(), "parsing {text:?}");
    }
}

#[test]
fn a_borderless_side_has_no_width() {
    assert_eq!(used_border_width(BorderStyle::NoBorder, 180), 0);
    assert_eq!(used_border_width(BorderStyle::Hidden, 180), 0);
    assert_eq!(used_border_width(BorderStyle::Double, 180), 180);
    assert!(BorderStyle::Hidden.none_or_hidden());
    assert!(!BorderStyle::Groove.none_or_hidden());
}

#[test]
fn collapsed_widths_take_the_widest_visible_side_per_axis() {
    let b = Border {
        top: BorderSide { style: BorderStyle::Solid, width: 60 },
        right: BorderSide { style: BorderStyle::Hidden, width: 600 },
        bottom: BorderSide { style: BorderStyle::Dotted, width: 90 },
        left: BorderSide { style: BorderStyle::Inset, width: 30 },
    };
    assert_eq!(collapsed_axis_widths(&b), (30, 90));
}

#[test]
fn a_range_iter_counts_up_to_its_end() {
    let mut it = RangeIter::new(3, 5);
    assert_eq!(it.next(), Some(3));
    assert_eq!((it.start, it.end), (4, 5));
    assert_eq!(it.next(), Some(4));
    assert_eq!((it.start, it.end), (5, 5));
    assert_eq!(it.next(), None);
    assert_eq!((it.start, it.end), (5, 5));
    assert_eq!(RangeIter::new(5, 3).next(), None);
}

fn node(node_id: usize, x: i32, y: i32, width: i32, height: i32) -> PaintNode {
    PaintNode { node_id, x, y, width, height, shadows: Vec::new(), filters: Vec::new(), children: Vec::new() }
}

#[test]
fn reach_of_shadows_and_filters() {
    let outset = BoxShadow { offset_x: -7, offset_y: 3, spread: 2, std_dev: 4, inset: false };
    assert_eq!(shadow_reach(&outset), 7 + 2 + 20);
    assert_eq!(shadow_reach(&BoxShadow { inset: true, ..outset }), 0);
    assert_eq!(shadow_reach(&BoxShadow { spread: -100, ..outset }), 0);
    assert_eq!(filter_reach(&FilterInk::Blur { std_dev: 5 }), 15);
    assert_eq!(filter_reach(&FilterInk::DropShadow { offset_x: 4, offset_y: 8, std_dev: 1 }), 11);
    assert_eq!(filter_reach(&FilterInk::Recolor), 0);
    let mut n = node(1, 0, 0, 10, 10);
    n.shadows.push(outset);
    n.shadows.push(BoxShadow { offset_x: 0, offset_y: 0, spread: 0, std_dev: 1, inset: false });
    n.filters.push(FilterInk::Blur { std_dev: 2 });
    n.filters.push(FilterInk::Blur { std_dev: 1 });
    // The widest shadow, then each filter's growth on top.
    assert_eq!(ink_reach(&n), 29 + 6 + 3);
}

#[test]
fn the_margin_is_the_widest_reach_anywhere() {
    let mut root = node(1, 0, 0, 10, 10);
    let mut child = node(2, 0, 0, 5, 5);
    let mut grandchild = node(3, 0, 0, 1, 1);
    grandchild.shadows.push(BoxShadow { offset_x: 0, offset_y: 40, spread: 0, std_dev: 0, inset: false });
    child.filters.push(FilterInk::Blur { std_dev: 3 });
    child.children.push(grandchild);
    root.children.push(child);
    assert_eq!(ink_margin(&root), 40);
}

#[test]
fn overflow_unions_the_subtree() {
    let mut root = node(1, 0, 0, 10, 10);
    let mut child = node(2, -5, 2, 3, 3);
    child.children.push(node(3, 4, 20, 30, 1));
    root.children.push(child);
    assert_eq!(scrollable_overflow(&root), Rect { x0: -5, y0: 0, x1: 34, y1: 21 });
}

#[test]
fn touching_the_clip_is_not_reaching_it() {
    let clip = Rect { x0: 0, y0: 0, x1: 100, y1: 100 };
    let above = Rect { x0: 0, y0: -50, x1: 100, y1: 0 };
    assert!(!reaches(&above, 0, &clip));
    assert!(reaches(&above, 1, &clip));
}

#[test]
fn a_culled_element_takes_its_subtree_with_it() {
    let clip = Rect { x0: 0, y0: 0, x1: 100, y1: 100 };
    let mut root = node(1, 0, 0, 100, 100);
    let mut off = node(2, 0, 200, 10, 10);
    off.children.push(node(3, 0, 210, 10, 10));
    root.children.push(off);
    root.children.push(node(4, 0, 50, 10, 10));
    assert_eq!(paint_order(&root, &clip), vec![1, 4]);
    // A shadow reaching back from the culled subtree brings all of it in.
    root.children[0].children[0].shadows.push(BoxShadow {
        offset_x: 0,
        offset_y: -150,
        spread: 0,
        std_dev: 0,
        inset: false,
    });
    assert_eq!(paint_order(&root, &clip), vec![1, 2, 3, 4]);
}
