//! An element is skipped entirely when the rect it could ink falls outside the clip
//! rectangle it is being painted into. That rect is its scrollable overflow — its own
//! border box unioned with everything its subtree hangs outside it — on screen, in
//! device pixels. A marker box far enough off the top of the clip is not painted; one
//! overlapping it is.
//!
//! Each page is laid out by hand in device pixels at the given scale.

use blitz_layout::cull::{paint_order, PaintNode, Rect};

/// The page's size in CSS pixels; the buffer is this many device pixels times the scale.
const SIZE: i32 = 100;

const SCALES: [i32; 2] = [1, 2];

/// The marker box is 100 CSS px tall and sits this far down inside its parent.
const MARKER_TOP: i32 = 1000;

const MARKER_HEIGHT: i32 = 100;

const PAGE_HEIGHT: i32 = 3000;

const MARKER: usize = 5;

fn node(node_id: usize, x: i32, y: i32, width: i32, height: i32) -> PaintNode {
    PaintNode {
        node_id,
        x,
        y,
        width,
        height,
        shadows: Vec::new(),
        filters: Vec::new(),
        children: Vec::new(),
    }
}

/// A tall parent pulled `pull` CSS pixels above the top of the page, holding a red marker
/// box `MARKER_TOP` pixels down. The parent is tall enough that it always straddles the
/// viewport itself, so whether the marker is painted is decided by the marker's own cull
/// and not by its parent's.
fn page(pull: i32, scale: i32) -> PaintNode {
    let top = -pull * scale;
    let mut parent = node(3, 0, top, SIZE * scale, PAGE_HEIGHT * scale);
    parent.children.push(node(4, 0, top, SIZE * scale, MARKER_TOP * scale));
    parent.children.push(node(
        MARKER,
        0,
        top + MARKER_TOP * scale,
        SIZE * scale,
        MARKER_HEIGHT * scale,
    ));
    let mut body = node(2, 0, 0, SIZE * scale, PAGE_HEIGHT * scale);
    body.children.push(parent);
    let mut html = node(1, 0, 0, SIZE * scale, PAGE_HEIGHT * scale);
    html.children.push(body);
    html
}

/// How many fills of the marker colour painting this page records.
fn marker_fills(pull: i32, scale: i32) -> usize {
    let root = page(pull, scale);
    let side = (SIZE * scale) as i64;
    let clip = Rect { x0: 0, y0: 0, x1: side, y1: side };
    paint_order(&root, &clip).iter().filter(|id| **id == MARKER).count()
}

fn assert_marker_fills(pull: i32, expected: usize, message: &str) {
    for scale in SCALES {
        let found = marker_fills(pull, scale);
        assert_eq!(
            found, expected,
            "{message}: pulled up {pull}px at scale {scale}, expected {expected} marker \
             fill(s), found {found}"
        );
    }
}

#[test]
fn a_marker_inside_the_viewport_is_painted() {
    // Pulled up 950px, the marker spans y 50..150 — its top half is on screen.
    assert_marker_fills(
        MARKER_TOP - 50,
        1,
        "a marker overlapping the viewport must be painted",
    );
}

#[test]
fn a_marker_straddling_the_top_edge_is_painted() {
    // Pulled up 1050px, the marker spans y -50..50 — its bottom half is on screen. This
    // is the case the cull rect must not shrink past.
    assert_marker_fills(
        MARKER_TOP + 50,
        1,
        "a marker straddling the top edge of the viewport must be painted",
    );
}

#[test]
fn a_marker_above_the_viewport_is_culled() {
    // Pulled up 2000px, the marker spans y -1000..-900: a full 900px clear of the top
    // edge.
    assert_marker_fills(
        MARKER_TOP + MARKER_HEIGHT + 900,
        0,
        "a marker entirely above the viewport must be culled",
    );
}
