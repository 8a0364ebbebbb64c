//! An element is skipped entirely when the rect it could ink falls outside the clip
//! rectangle it is being painted into, and "skipped" includes its shadow: nothing of a
//! culled element is drawn. The rect is grown by the document's ink margin before it is
//! compared, so a shadow whose box is off screen while its blur or offset is not is
//! still painted.
//!
//! Each page is laid out by hand in device pixels at the given scale.

use blitz_layout::cull::{paint_order, BoxShadow, PaintNode, Rect};

/// The page's size in CSS pixels.
const SIZE: i32 = 100;

const SCALES: [i32; 2] = [1, 2];

const HTML: usize = 1;
const BODY: usize = 2;
const OUTER: usize = 3;
const INNER: usize = 4;

fn node(node_id: usize, x: i32, y: i32, width: i32, height: i32) -> PaintNode {
    PaintNode {
        node_id,
        x,
        y,
        width,
        height,
        shadows: Vec::new(),
        filters: Vec::new(),
        children: Vec::new(),
    }
}

/// A red outset shadow, given in CSS pixels: offset, blur radius and spread.
fn red_shadow(offset_x: i32, offset_y: i32, blur: i32, spread: i32, scale: i32) -> BoxShadow {
    BoxShadow {
        offset_x: offset_x * scale,
        offset_y: offset_y * scale,
        spread: spread * scale,
        std_dev: blur * scale / 2,
        inset: false,
    }
}

/// `<html><body style="margin:0">` holding `content`, which is absolutely positioned
/// and so gives the body no height.
fn page(content: PaintNode, scale: i32) -> PaintNode {
    let mut body = node(BODY, 0, 0, SIZE * scale, 0);
    body.children.push(content);
    let mut html = node(HTML, 0, 0, SIZE * scale, 0);
    html.children.push(body);
    html
}

/// A 100px box absolutely positioned `top` CSS pixels down.
fn positioned_box(id: usize, top: i32, scale: i32) -> PaintNode {
    node(id, 0, top * scale, 100 * scale, 100 * scale)
}

/// A box whose own border box sits 20px clear above the viewport, carrying an unblurred
/// shadow offset 130px down — so the box is off screen and its ink is not.
fn own_offset(scale: i32) -> PaintNode {
    let mut div = positioned_box(OUTER, -120, scale);
    div.shadows.push(red_shadow(0, 130, 0, 0, scale));
    page(div, scale)
}

/// The same, with the ink carried by a blur rather than an offset: the box's bottom edge
/// is 10px above the viewport and a 20px blur radius is a 10px deviation.
fn own_blur(scale: i32) -> PaintNode {
    let mut div = positioned_box(OUTER, -110, scale);
    div.shadows.push(red_shadow(0, 0, 20, 0, scale));
    page(div, scale)
}

/// The shadow belongs to a child, and the parent wraps it exactly — so the parent's
/// scrollable overflow is entirely off screen and the parent is what gets culled.
fn descendant(scale: i32) -> PaintNode {
    let mut outer = positioned_box(OUTER, -120, scale);
    let mut inner = positioned_box(INNER, -120, scale);
    inner.shadows.push(red_shadow(0, 130, 0, 0, scale));
    outer.children.push(inner);
    page(outer, scale)
}

/// Far enough above that even the 130px the shadow reaches leaves it off screen.
fn out_of_reach(scale: i32) -> PaintNode {
    let mut div = positioned_box(OUTER, -400, scale);
    div.shadows.push(red_shadow(0, 130, 0, 0, scale));
    page(div, scale)
}

/// The ids of the elements of `n` that carry a red shadow.
fn shadowed(n: &PaintNode, out: &mut Vec<usize>) {
    if !n.shadows.is_empty() {
        out.push(n.node_id);
    }
    for child in &n.children {
        shadowed(child, out);
    }
}

/// How many red box-shadows painting this page records.
fn red_shadows(make: fn(i32) -> PaintNode, scale: i32) -> usize {
    let root = make(scale);
    let side = (SIZE * scale) as i64;
    let clip = Rect { x0: 0, y0: 0, x1: side, y1: side };
    let mut with_shadow = Vec::new();
    shadowed(&root, &mut with_shadow);
    paint_order(&root, &clip)
        .iter()
        .filter(|id| with_shadow.contains(id))
        .count()
}

fn assert_red_shadows(make: fn(i32) -> PaintNode, expected: usize, message: &str) {
    for scale in SCALES {
        let found = red_shadows(make, scale);
        assert_eq!(
            found, expected,
            "{message}: at scale {scale}, expected {expected} red shadow(s), found {found}"
        );
    }
}

#[test]
fn an_offset_shadow_reaching_into_the_viewport_is_painted() {
    assert_red_shadows(
        own_offset,
        1,
        "a box 20px above the viewport with its shadow offset 130px down inks on screen, so \
         culling it on its layout box alone loses that ink",
    );
}

#[test]
fn a_blurred_shadow_reaching_into_the_viewport_is_painted() {
    assert_red_shadows(
        own_blur,
        1,
        "a box 10px above the viewport with a 20px blur radius inks on screen, so culling it \
         on its layout box alone loses that ink",
    );
}

#[test]
fn a_descendants_shadow_reaching_in_is_painted() {
    assert_red_shadows(
        descendant,
        1,
        "the shadow is a child's, but the parent wraps it exactly, so the parent's own cull \
         is what decides: a margin that only relaxed the shadowed element's cull would never \
         be reached",
    );
}

#[test]
fn a_shadow_that_cannot_reach_the_viewport_is_still_culled() {
    assert_red_shadows(
        out_of_reach,
        0,
        "the margin has to be the ink's reach and no more; a box 300px above the viewport \
         with a 130px shadow inks nothing on screen and must still be culled",
    );
}
