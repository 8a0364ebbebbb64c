//! Paint culling.
//!
//! An element is skipped entirely, its subtree with it, when the rect it could
//! ink misses the clip rectangle it is painted into. That rect is its
//! scrollable overflow (its border box unioned with its subtree's) grown by
//! the document's ink margin: the furthest any one element inks past its own
//! border box with its box shadows and filters. The margin is document-wide
//! because the cull that decides whether an element's ink is painted is often
//! an ancestor's.
//!
//! All geometry is in device pixels, on screen.

use vstd::prelude::*;

verus! {

/// An axis-aligned rectangle from `(x0, y0)` to `(x1, y1)`.
#[derive(Clone, Copy, Debug, PartialEq, Eq, Structural)]
pub struct Rect {
    pub x0: i64,
    pub y0: i64,
    pub x1: i64,
    pub y1: i64,
}

/// A `box-shadow`, its lengths in device pixels; `std_dev` is the gaussian's
/// standard deviation (half the CSS blur radius).
#[derive(Clone, Copy, Debug, PartialEq, Eq, Structural)]
pub struct BoxShadow {
    pub offset_x: i32,
    pub offset_y: i32,
    pub spread: i32,
    pub std_dev: i32,
    pub inset: bool,
}

/// How one filter of an element's `filter` list inks outside what it is
/// applied to.
#[derive(Clone, Copy, Debug, PartialEq, Eq, Structural)]
pub enum FilterInk {
    /// A gaussian blur of the given standard deviation.
    Blur { std_dev: i32 },
    /// A drop shadow: the source, and a blurred copy moved by the offset.
    DropShadow { offset_x: i32, offset_y: i32, std_dev: i32 },
    /// A filter that only recolours.
    Recolor,
}

/// An element to paint: its id, its border box on screen, what inks around
/// it, and its children in paint order.
#[derive(Debug)]
pub struct PaintNode {
    pub node_id: usize,
    pub x: i32,
    pub y: i32,
    pub width: i32,
    pub height: i32,
    pub shadows: Vec<BoxShadow>,
    pub filters: Vec<FilterInk>,
    pub children: Vec<PaintNode>,
}

pub open spec fn abs(a: int) -> int {
    if a < 0 {
        -a
    } else {
        a
    }
}

pub open spec fn max(a: int, b: int) -> int {
    if a >= b {
        a
    } else {
        b
    }
}

/// How far a box shadow inks past the border box: an inset shadow not at
/// all; an outset one by its offset, its spread and its blur, which inks five
/// deviations out (a 20px blur radius, a 10px deviation, inks 50px).
pub open spec fn spec_shadow_reach(s: BoxShadow) -> int {
    if s.inset {
        0
    } else {
        max(0, max(abs(s.offset_x as int), abs(s.offset_y as int)) + s.spread + 5 * s.std_dev)
    }
}

/// How far a filter grows what it is applied to: a gaussian by three
/// deviations, a drop shadow by that and its offset.
pub open spec fn spec_filter_reach(f: FilterInk) -> int {
    match f {
        FilterInk::Blur { std_dev } => max(0, 3 * std_dev),
        FilterInk::DropShadow { offset_x, offset_y, std_dev } => max(
            0,
            max(abs(offset_x as int), abs(offset_y as int)) + 3 * std_dev,
        ),
        FilterInk::Recolor => 0,
    }
}

/// The widest reach of the shadows.
pub open spec fn spec_shadows_reach(s: Seq<BoxShadow>) -> int
    decreases s.len(),
{
    if s.len() == 0 {
        0
    } else {
        max(spec_shadows_reach(s.drop_last()), spec_shadow_reach(s.last()))
    }
}

/// The filters apply one after another, so their reaches add up.
pub open spec fn spec_filters_reach(f: Seq<FilterInk>) -> int
    decreases f.len(),
{
    if f.len() == 0 {
        0
    } else {
        spec_filters_reach(f.drop_last()) + spec_filter_reach(f.last())
    }
}

/// How far an element inks past its own border box: its shadows, then its
/// filters applied to all of it.
pub open spec fn spec_ink_reach(n: PaintNode) -> int {
    spec_shadows_reach(n.shadows@) + spec_filters_reach(n.filters@)
}

/// The ink margin of a subtree: the furthest any of its elements inks past
/// its own border box.
pub open spec fn spec_ink_margin(n: PaintNode) -> int
    decreases n, n.children@.len() + 1,
{
    max(spec_ink_reach(n), spec_children_margin(n, n.children@.len() as int))
}

pub open spec fn spec_children_margin(n: PaintNode, k: int) -> int
    decreases n, if k > 0 { k } else { 0 },
{
    if k <= 0 || k > n.children@.len() {
        0
    } else {
        proof {
            assert(decreases_to!(n => n.children));
        }
        max(spec_children_margin(n, k - 1), spec_ink_margin(n.children@[k - 1]))
    }
}

pub open spec fn min64(a: i64, b: i64) -> i64 {
    if a <= b {
        a
    } else {
        b
    }
}

pub open spec fn max64(a: i64, b: i64) -> i64 {
    if a >= b {
        a
    } else {
        b
    }
}

pub open spec fn union(a: Rect, b: Rect) -> Rect {
    Rect { x0: min64(a.x0, b.x0), y0: min64(a.y0, b.y0), x1: max64(a.x1, b.x1), y1: max64(a.y1, b.y1) }
}

/// An element's border box.
pub open spec fn spec_border_box(n: PaintNode) -> Rect {
    Rect {
        x0: n.x as i64,
        y0: n.y as i64,
        x1: (n.x + n.width) as i64,
        y1: (n.y + n.height) as i64,
    }
}

/// An element's scrollable overflow: its border box unioned with its
/// children's scrollable overflow.
pub open spec fn spec_overflow(n: PaintNode) -> Rect
    decreases n, n.children@.len() + 1,
{
    spec_children_overflow(n, n.children@.len() as int)
}

/// The border box unioned with the overflow of the first `k` children.
pub open spec fn spec_children_overflow(n: PaintNode, k: int) -> Rect
    decreases n, if k > 0 { k } else { 0 },
{
    if k <= 0 || k > n.children@.len() {
        spec_border_box(n)
    } else {
        proof {
            assert(decreases_to!(n => n.children));
        }
        union(spec_children_overflow(n, k - 1), spec_overflow(n.children@[k - 1]))
    }
}

/// Whether `r` grown by `margin` on every side overlaps `clip` with a
/// positive area.
pub open spec fn spec_reaches(r: Rect, margin: int, clip: Rect) -> bool {
    &&& r.x0 - margin < clip.x1
    &&& clip.x0 < r.x1 + margin
    &&& r.y0 - margin < clip.y1
    &&& clip.y0 < r.y1 + margin
    &&& r.x0 - margin < r.x1 + margin
    &&& r.y0 - margin < r.y1 + margin
    &&& clip.x0 < clip.x1
    &&& clip.y0 < clip.y1
}

/// The ids of the elements of the subtree that are painted, in paint order,
/// when each is culled against `clip` by its overflow grown by `margin`.
pub open spec fn spec_painted(n: PaintNode, clip: Rect, margin: int) -> Seq<usize>
    decreases n, n.children@.len() + 1,
{
    if spec_reaches(spec_overflow(n), margin, clip) {
        seq![n.node_id] + spec_painted_children(n, n.children@.len() as int, clip, margin)
    } else {
        Seq::empty()
    }
}

pub open spec fn spec_painted_children(n: PaintNode, k: int, clip: Rect, margin: int) -> Seq<usize>
    decreases n, if k > 0 { k } else { 0 },
{
    if k <= 0 || k > n.children@.len() {
        Seq::empty()
    } else {
        proof {
            assert(decreases_to!(n => n.children));
        }
        spec_painted_children(n, k - 1, clip, margin) + spec_painted(n.children@[k - 1], clip, margin)
    }
}

/// What painting the document `root` into `clip` paints.
pub open spec fn spec_paint_order(root: PaintNode, clip: Rect) -> Seq<usize> {
    spec_painted(root, clip, spec_ink_margin(root))
}/// A bound on the reach of any one shadow or filter: an offset, a spread and
/// five deviations, each an `i32`.
pub open spec fn item_cap() -> int {
    0x3_8000_0000
}

/// A bound on any ink margin.
pub open spec fn margin_cap() -> int {
    0x10_0000_0000_0000_0000_0000_0000
}

proof fn lemma_shadows_bounded(s: Seq<BoxShadow>)
    ensures
        0 <= spec_shadows_reach(s) <= item_cap(),
    decreases s.len(),
{
    if s.len() > 0 {
        lemma_shadows_bounded(s.drop_last());
    }
}

proof fn lemma_filters_bounded(f: Seq<FilterInk>)
    ensures
        0 <= spec_filters_reach(f) <= f.len() * item_cap(),
    decreases f.len(),
{
    if f.len() > 0 {
        lemma_filters_bounded(f.drop_last());
    }
}

proof fn lemma_ink_reach_bounded(n: PaintNode)
    ensures
        0 <= spec_ink_reach(n) <= margin_cap(),
{
    lemma_shadows_bounded(n.shadows@);
    lemma_filters_bounded(n.filters@);
    assert(n.filters@.len() == n.filters.len());
    assert(n.filters@.len() * item_cap() <= (usize::MAX as int) * item_cap()) by (nonlinear_arith)
        requires
            n.filters@.len() <= usize::MAX,
    ;
}

proof fn lemma_margin_bounded(n: PaintNode)
    ensures
        0 <= spec_ink_margin(n) <= margin_cap(),
    decreases n, n.children@.len() + 1,
{
    lemma_ink_reach_bounded(n);
    lemma_children_margin_bounded(n, n.children@.len() as int);
}

proof fn lemma_children_margin_bounded(n: PaintNode, k: int)
    ensures
        0 <= spec_children_margin(n, k) <= margin_cap(),
    decreases n, if k > 0 { k } else { 0 },
{
    if k > 0 && k <= n.children@.len() {
        assert(decreases_to!(n => n.children));
        lemma_children_margin_bounded(n, k - 1);
        lemma_margin_bounded(n.children@[k - 1]);
    }
}

fn abs_i32(a: i32) -> (r: i64)
    ensures
        r == abs(a as int),
{
    if a < 0 {
        -(a as i64)
    } else {
        a as i64
    }
}

/// How far a box shadow inks past the border box.
pub fn shadow_reach(s: &BoxShadow) -> (r: i64)
    ensures
        r == spec_shadow_reach(*s),
{
    if s.inset {
        0
    } else {
        let dx = abs_i32(s.offset_x);
        let dy = abs_i32(s.offset_y);
        let d = if dx >= dy { dx } else { dy };
        let r = d + s.spread as i64 + 5 * (s.std_dev as i64);
        if r > 0 {
            r
        } else {
            0
        }
    }
}

/// How far a filter grows what it is applied to.
pub fn filter_reach(f: &FilterInk) -> (r: i64)
    ensures
        r == spec_filter_reach(*f),
{
    match f {
        FilterInk::Blur { std_dev } => {
            let r = 3 * (*std_dev as i64);
            if r > 0 {
                r
            } else {
                0
            }
        },
        FilterInk::DropShadow { offset_x, offset_y, std_dev } => {
            let dx = abs_i32(*offset_x);
            let dy = abs_i32(*offset_y);
            let d = if dx >= dy { dx } else { dy };
            let r = d + 3 * (*std_dev as i64);
            if r > 0 {
                r
            } else {
                0
            }
        },
        FilterInk::Recolor => 0,
    }
}

/// How far an element inks past its own border box.
pub fn ink_reach(n: &PaintNode) -> (r: i128)
    ensures
        r == spec_ink_reach(*n),
{
    let mut shadows: i64 = 0;
    let mut i: usize = 0;
    while i < n.shadows.len()
        invariant
            i <= n.shadows@.len(),
            shadows == spec_shadows_reach(n.shadows@.subrange(0, i as int)),
        decreases n.shadows@.len() - i,
    {
        proof {
            assert(n.shadows@.subrange(0, i + 1).drop_last() =~= n.shadows@.subrange(0, i as int));
        }
        let r = shadow_reach(&n.shadows[i]);
        if r > shadows {
            shadows = r;
        }
        i = i + 1;
    }
    let mut filters: i128 = 0;
    let mut j: usize = 0;
    while j < n.filters.len()
        invariant
            j <= n.filters@.len(),
            filters == spec_filters_reach(n.filters@.subrange(0, j as int)),
            0 <= filters <= j * item_cap(),
        decreases n.filters@.len() - j,
    {
        proof {
            assert(n.filters@.subrange(0, j + 1).drop_last() =~= n.filters@.subrange(0, j as int));
            lemma_filters_bounded(n.filters@.subrange(0, j + 1));
        }
        let r = filter_reach(&n.filters[j]);
        filters = filters + r as i128;
        j = j + 1;
    }
    proof {
        assert(n.shadows@.subrange(0, n.shadows@.len() as int) =~= n.shadows@);
        assert(n.filters@.subrange(0, n.filters@.len() as int) =~= n.filters@);
        lemma_shadows_bounded(n.shadows@);
    }
    shadows as i128 + filters
}

/// The document's ink margin: the furthest any element of the tree inks past
/// its own border box.
pub fn ink_margin(n: &PaintNode) -> (r: i128)
    ensures
        r == spec_ink_margin(*n),
    decreases n, n.children@.len() + 1,
{
    let mut m = ink_reach(n);
    let mut i: usize = 0;
    let mut children: i128 = 0;
    while i < n.children.len()
        invariant
            i <= n.children@.len(),
            children == spec_children_margin(*n, i as int),
        decreases n.children@.len() - i,
    {
        proof {
            assert(decreases_to!(n => n.children));
        }
        let c = ink_margin(&n.children[i]);
        if c > children {
            children = c;
        }
        i = i + 1;
    }
    if children > m {
        m = children;
    }
    m
}

/// An element's scrollable overflow: its border box unioned with everything
/// its subtree hangs outside it.
pub fn scrollable_overflow(n: &PaintNode) -> (r: Rect)
    ensures
        r == spec_overflow(*n),
    decreases n, n.children@.len() + 1,
{
    let mut r = Rect {
        x0: n.x as i64,
        y0: n.y as i64,
        x1: n.x as i64 + n.width as i64,
        y1: n.y as i64 + n.height as i64,
    };
    let mut i: usize = 0;
    while i < n.children.len()
        invariant
            i <= n.children@.len(),
            r == spec_children_overflow(*n, i as int),
        decreases n.children@.len() - i,
    {
        proof {
            assert(decreases_to!(n => n.children));
        }
        let c = scrollable_overflow(&n.children[i]);
        r = Rect {
            x0: if r.x0 <= c.x0 { r.x0 } else { c.x0 },
            y0: if r.y0 <= c.y0 { r.y0 } else { c.y0 },
            x1: if r.x1 >= c.x1 { r.x1 } else { c.x1 },
            y1: if r.y1 >= c.y1 { r.y1 } else { c.y1 },
        };
        i = i + 1;
    }
    r
}

/// Whether `r` grown by `margin` overlaps `clip`.
pub fn reaches(r: &Rect, margin: i128, clip: &Rect) -> (b: bool)
    requires
        0 <= margin <= margin_cap(),
    ensures
        b == spec_reaches(*r, margin as int, *clip),
{
    let x0 = (r.x0 as i128) - margin;
    let x1 = (r.x1 as i128) + margin;
    let y0 = (r.y0 as i128) - margin;
    let y1 = (r.y1 as i128) + margin;
    x0 < clip.x1 as i128 && (clip.x0 as i128) < x1 && y0 < clip.y1 as i128 && (clip.y0 as i128)
        < y1 && x0 < x1 && y0 < y1 && clip.x0 < clip.x1 && clip.y0 < clip.y1
}

/// Paints the subtree: appends to `out` the ids of its elements that are not
/// culled, in paint order. A culled element is skipped with its subtree.
fn paint_subtree(n: &PaintNode, clip: &Rect, margin: i128, out: &mut Vec<usize>)
    requires
        0 <= margin <= margin_cap(),
    ensures
        final(out)@ == old(out)@ + spec_painted(*n, *clip, margin as int),
    decreases n, n.children@.len() + 1,
{
    let overflow = scrollable_overflow(n);
    if !reaches(&overflow, margin, clip) {
        assert(old(out)@ + Seq::<usize>::empty() =~= old(out)@);
        return;
    }
    let ghost start = out@;
    out.push(n.node_id);
    let mut i: usize = 0;
    while i < n.children.len()
        invariant
            i <= n.children@.len(),
            0 <= margin <= margin_cap(),
            out@ == start.push(n.node_id) + spec_painted_children(*n, i as int, *clip, margin as int),
        decreases n.children@.len() - i,
    {
        proof {
            assert(decreases_to!(n => n.children));
        }
        let ghost before = out@;
        paint_subtree(&n.children[i], clip, margin, out);
        proof {
            let p = spec_painted_children(*n, i as int, *clip, margin as int);
            let q = spec_painted(n.children@[i as int], *clip, margin as int);
            assert(start.push(n.node_id) + (p + q) =~= (start.push(n.node_id) + p) + q);
        }
        i = i + 1;
    }
    assert(start.push(n.node_id) + spec_painted_children(
        *n,
        n.children@.len() as int,
        *clip,
        margin as int,
    ) =~= start + spec_painted(*n, *clip, margin as int));
}

/// Paints the document `root` into `clip`: the ids of the elements painted,
/// in paint order, each culled by its scrollable overflow grown by the
/// document's ink margin.
pub fn paint_order(root: &PaintNode, clip: &Rect) -> (r: Vec<usize>)
    ensures
        r@ == spec_paint_order(*root, *clip),
{
    let margin = ink_margin(root);
    proof {
        lemma_margin_bounded(*root);
    }
    let mut out: Vec<usize> = Vec::new();
    paint_subtree(root, clip, margin, &mut out);
    assert(Seq::<usize>::empty() + spec_paint_order(*root, *clip) =~= spec_paint_order(*root, *clip));
    out
}/// The element reached from `n` by following `path`, one child index per
/// level.
pub open spec fn spec_node_at(n: PaintNode, path: Seq<usize>) -> Option<PaintNode>
    decreases path.len(),
{
    if path.len() == 0 {
        Some(n)
    } else if path[0] < n.children@.len() {
        spec_node_at(n.children@[path[0] as int], path.drop_first())
    } else {
        None
    }
}

/// `outer` covers `inner`.
pub open spec fn covers(outer: Rect, inner: Rect) -> bool {
    &&& outer.x0 <= inner.x0
    &&& outer.y0 <= inner.y0
    &&& inner.x1 <= outer.x1
    &&& inner.y1 <= outer.y1
}

proof fn lemma_children_overflow_covers(n: PaintNode, k: int, i: int)
    requires
        0 <= k <= n.children@.len(),
    ensures
        covers(spec_children_overflow(n, k), spec_border_box(n)),
        0 <= i < k ==> covers(spec_children_overflow(n, k), spec_overflow(n.children@[i])),
    decreases k,
{
    if k > 0 {
        lemma_children_overflow_covers(n, k - 1, i);
    }
}

proof fn lemma_overflow_covers_descendant(n: PaintNode, path: Seq<usize>)
    requires
        spec_node_at(n, path) is Some,
    ensures
        covers(spec_overflow(n), spec_border_box(spec_node_at(n, path).unwrap())),
    decreases path.len(),
{
    let len = n.children@.len() as int;
    lemma_children_overflow_covers(n, len, 0);
    if path.len() > 0 {
        let i = path[0] as int;
        lemma_children_overflow_covers(n, len, i);
        lemma_overflow_covers_descendant(n.children@[i], path.drop_first());
    }
}

proof fn lemma_children_margin_ge(n: PaintNode, k: int, i: int)
    requires
        0 <= i < k <= n.children@.len(),
    ensures
        spec_children_margin(n, k) >= spec_ink_margin(n.children@[i]),
    decreases k,
{
    if i < k - 1 {
        lemma_children_margin_ge(n, k - 1, i);
    }
}

proof fn lemma_margin_ge_descendant_reach(n: PaintNode, path: Seq<usize>)
    requires
        spec_node_at(n, path) is Some,
    ensures
        spec_ink_margin(n) >= spec_ink_reach(spec_node_at(n, path).unwrap()),
    decreases path.len(),
{
    if path.len() > 0 {
        let i = path[0] as int;
        lemma_children_margin_ge(n, n.children@.len() as int, i);
        lemma_margin_ge_descendant_reach(n.children@[i], path.drop_first());
    }
}

proof fn lemma_children_margin_attained(n: PaintNode, k: int) -> (i: int)
    requires
        0 < k <= n.children@.len(),
    ensures
        0 <= i < k,
        spec_children_margin(n, k) == spec_ink_margin(n.children@[i]),
    decreases k,
{
    if k == 1 {
        lemma_margin_bounded(n.children@[0]);
        assert(spec_children_margin(n, 0) == 0);
        0
    } else {
        let j = lemma_children_margin_attained(n, k - 1);
        if spec_children_margin(n, k - 1) >= spec_ink_margin(n.children@[k - 1]) {
            j
        } else {
            k - 1
        }
    }
}

proof fn lemma_margin_attained(n: PaintNode) -> (path: Seq<usize>)
    ensures
        spec_node_at(n, path) is Some,
        spec_ink_reach(spec_node_at(n, path).unwrap()) == spec_ink_margin(n),
    decreases n, n.children@.len() + 1,
{
    let len = n.children@.len() as int;
    lemma_ink_reach_bounded(n);
    if len == 0 || spec_ink_reach(n) >= spec_children_margin(n, len) {
        Seq::empty()
    } else {
        let i = lemma_children_margin_attained(n, len);
        assert(decreases_to!(n => n.children));
        let rest = lemma_margin_attained(n.children@[i]);
        assert(n.children@.len() == n.children.len());
        let path = seq![i as usize] + rest;
        assert(path.drop_first() =~= rest);
        assert(path[0] == i as usize);
        assert(spec_node_at(n, path) == spec_node_at(n.children@[i], rest));
        path
    }
}

/// The document's ink margin is the widest reach of its elements: no element
/// inks further past its own border box, and one inks exactly that far.
pub proof fn law_ink_margin_is_the_widest_reach(root: PaintNode)
    ensures
        forall|path: Seq<usize>|
            #[trigger] spec_node_at(root, path) is Some ==> spec_ink_reach(
                spec_node_at(root, path).unwrap(),
            ) <= spec_ink_margin(root),
        exists|path: Seq<usize>|
            #[trigger] spec_node_at(root, path) is Some && spec_ink_reach(
                spec_node_at(root, path).unwrap(),
            ) == spec_ink_margin(root),
{
    assert forall|path: Seq<usize>| #[trigger] spec_node_at(root, path) is Some implies spec_ink_reach(
        spec_node_at(root, path).unwrap(),
    ) <= spec_ink_margin(root) by {
        lemma_margin_ge_descendant_reach(root, path);
    }
    let p = lemma_margin_attained(root);
    assert(spec_node_at(root, p) is Some);
}

proof fn lemma_painted_children_contains(n: PaintNode, k: int, i: int, clip: Rect, margin: int, id: usize)
    requires
        0 <= i < k <= n.children@.len(),
        spec_painted(n.children@[i], clip, margin).contains(id),
    ensures
        spec_painted_children(n, k, clip, margin).contains(id),
    decreases k,
{
    let prev = spec_painted_children(n, k - 1, clip, margin);
    let last = spec_painted(n.children@[k - 1], clip, margin);
    if i < k - 1 {
        lemma_painted_children_contains(n, k - 1, i, clip, margin, id);
        let j = choose|j: int| 0 <= j < prev.len() && prev[j] == id;
        assert((prev + last)[j] == id);
    } else {
        let j = choose|j: int| 0 <= j < last.len() && last[j] == id;
        assert((prev + last)[prev.len() + j] == id);
    }
}

proof fn lemma_ink_painted(n: PaintNode, path: Seq<usize>, clip: Rect, margin: int)
    requires
        spec_node_at(n, path) is Some,
        spec_reaches(
            spec_border_box(spec_node_at(n, path).unwrap()),
            spec_ink_reach(spec_node_at(n, path).unwrap()),
            clip,
        ),
        margin >= spec_ink_reach(spec_node_at(n, path).unwrap()),
    ensures
        spec_painted(n, clip, margin).contains(spec_node_at(n, path).unwrap().node_id),
    decreases path.len(),
{
    let d = spec_node_at(n, path).unwrap();
    lemma_overflow_covers_descendant(n, path);
    assert(spec_reaches(spec_overflow(n), margin, clip));
    let len = n.children@.len() as int;
    let head = seq![n.node_id];
    let rest = spec_painted_children(n, len, clip, margin);
    if path.len() == 0 {
        assert((head + rest)[0] == d.node_id);
    } else {
        let i = path[0] as int;
        lemma_ink_painted(n.children@[i], path.drop_first(), clip, margin);
        lemma_painted_children_contains(n, len, i, clip, margin, d.node_id);
        let j = choose|j: int| 0 <= j < rest.len() && rest[j] == d.node_id;
        assert((head + rest)[1 + j] == d.node_id);
    }
}

/// No ink is lost to culling: an element whose border box, grown by how far
/// it inks past it, reaches into the clip is painted, wherever it is in the
/// document and whatever its ancestors' boxes are.
pub proof fn law_ink_reaching_the_clip_is_painted(root: PaintNode, path: Seq<usize>, clip: Rect)
    requires
        spec_node_at(root, path) is Some,
        spec_reaches(
            spec_border_box(spec_node_at(root, path).unwrap()),
            spec_ink_reach(spec_node_at(root, path).unwrap()),
            clip,
        ),
    ensures
        spec_paint_order(root, clip).contains(spec_node_at(root, path).unwrap().node_id),
{
    lemma_margin_ge_descendant_reach(root, path);
    lemma_ink_painted(root, path, clip, spec_ink_margin(root));
}pub open spec fn min(a: int, b: int) -> int {
    if a <= b {
        a
    } else {
        b
    }
}

/// `r` with its axes swapped.
pub open spec fn transpose(r: Rect) -> Rect {
    Rect { x0: r.y0, y0: r.x0, x1: r.y1, y1: r.x1 }
}

/// The cull test grows the rect by the margin on all four sides and asks
/// whether what results shares a region of positive area with the clip; the
/// two axes are treated alike.
pub proof fn law_reaches_is_overlap_of_the_grown_rect(r: Rect, margin: int, clip: Rect)
    requires
        margin >= 0,
    ensures
        spec_reaches(r, margin, clip) <==> (max(r.x0 - margin, clip.x0 as int) < min(
            r.x1 + margin,
            clip.x1 as int,
        ) && max(r.y0 - margin, clip.y0 as int) < min(r.y1 + margin, clip.y1 as int)),
        spec_reaches(r, margin, clip) == spec_reaches(transpose(r), margin, transpose(clip)),
{
}

/// A box shadow reaches at least its spread and blur beyond where its offset
/// moves it, in whichever direction it is moved, and inset shadows nothing;
/// swapping its offsets does not change its reach.
pub proof fn law_shadow_reach_covers_its_offset(s: BoxShadow)
    ensures
        spec_shadow_reach(s) >= 0,
        s.inset ==> spec_shadow_reach(s) == 0,
        !s.inset ==> spec_shadow_reach(s) >= abs(s.offset_x as int) + s.spread + 5 * s.std_dev,
        !s.inset ==> spec_shadow_reach(s) >= abs(s.offset_y as int) + s.spread + 5 * s.std_dev,
        !s.inset ==> (spec_shadow_reach(s) == 0 || spec_shadow_reach(s) == abs(s.offset_x as int)
            + s.spread + 5 * s.std_dev || spec_shadow_reach(s) == abs(s.offset_y as int) + s.spread
            + 5 * s.std_dev),
        spec_shadow_reach(s) == spec_shadow_reach(
            BoxShadow { offset_x: s.offset_y, offset_y: s.offset_x, ..s },
        ),
{
}

/// A drop-shadow filter reaches three deviations beyond its offset in either
/// direction, and exactly the farther of the two; its offsets play the same
/// part. A blur reaches three deviations; a recolouring filter nothing.
pub proof fn law_filter_reach_covers_its_offset(dx: i32, dy: i32, sd: i32)
    ensures
        spec_filter_reach(FilterInk::DropShadow { offset_x: dx, offset_y: dy, std_dev: sd })
            == spec_filter_reach(FilterInk::DropShadow { offset_x: dy, offset_y: dx, std_dev: sd }),
        spec_filter_reach(FilterInk::DropShadow { offset_x: dx, offset_y: dy, std_dev: sd }) >= abs(
            dx as int,
        ) + 3 * sd,
        spec_filter_reach(FilterInk::DropShadow { offset_x: dx, offset_y: dy, std_dev: sd }) >= abs(
            dy as int,
        ) + 3 * sd,
        spec_filter_reach(FilterInk::DropShadow { offset_x: dx, offset_y: dy, std_dev: sd }) == max(
            max(0, abs(dx as int) + 3 * sd),
            abs(dy as int) + 3 * sd,
        ),
        spec_filter_reach(FilterInk::Blur { std_dev: sd }) == max(0, 3 * sd),
        spec_filter_reach(FilterInk::Recolor) == 0,
{
}

proof fn lemma_shadows_cover(s: Seq<BoxShadow>, i: int)
    requires
        0 <= i < s.len(),
    ensures
        spec_shadows_reach(s) >= spec_shadow_reach(s[i]),
    decreases s.len(),
{
    if i < s.len() - 1 {
        lemma_shadows_cover(s.drop_last(), i);
    }
}

proof fn lemma_filters_cover(f: Seq<FilterInk>, i: int)
    requires
        0 <= i < f.len(),
    ensures
        spec_filters_reach(f) >= spec_filter_reach(f[i]),
        spec_filters_reach(f) >= 0,
    decreases f.len(),
{
    lemma_filters_bounded(f);
    lemma_filters_bounded(f.drop_last());
    if i < f.len() - 1 {
        lemma_filters_cover(f.drop_last(), i);
    }
}

/// An element inks at least as far as any one of its shadows, plus the
/// growth of any one of its filters, and not at all when it has neither.
pub proof fn law_ink_reach_covers_each_shadow_and_filter(n: PaintNode)
    ensures
        forall|i: int, j: int|
            0 <= i < n.shadows@.len() && 0 <= j < n.filters@.len() ==> spec_ink_reach(n) >= spec_shadow_reach(
                #[trigger] n.shadows@[i],
            ) + spec_filter_reach(#[trigger] n.filters@[j]),
        forall|i: int|
            0 <= i < n.shadows@.len() ==> spec_ink_reach(n) >= spec_shadow_reach(#[trigger] n.shadows@[i]),
        forall|j: int|
            0 <= j < n.filters@.len() ==> spec_ink_reach(n) >= spec_filter_reach(#[trigger] n.filters@[j]),
        n.shadows@.len() == 0 && n.filters@.len() == 0 ==> spec_ink_reach(n) == 0,
        spec_ink_reach(n) >= 0,
{
    lemma_shadows_bounded(n.shadows@);
    lemma_filters_bounded(n.filters@);
    assert forall|i: int, j: int|
        0 <= i < n.shadows@.len() && 0 <= j < n.filters@.len() implies spec_ink_reach(n) >= spec_shadow_reach(
        #[trigger] n.shadows@[i],
    ) + spec_filter_reach(#[trigger] n.filters@[j]) by {
        lemma_shadows_cover(n.shadows@, i);
        lemma_filters_cover(n.filters@, j);
    }
    assert forall|i: int| 0 <= i < n.shadows@.len() implies spec_ink_reach(n) >= spec_shadow_reach(
        #[trigger] n.shadows@[i],
    ) by {
        lemma_shadows_cover(n.shadows@, i);
    }
    assert forall|j: int| 0 <= j < n.filters@.len() implies spec_ink_reach(n) >= spec_filter_reach(
        #[trigger] n.filters@[j],
    ) by {
        lemma_filters_cover(n.filters@, j);
    }
}/// An element's scrollable overflow is the least rectangle covering its own
/// border box and every child's scrollable overflow: it covers each of them,
/// and each of its edges is an edge of one of them.
pub proof fn law_overflow_is_least_cover(n: PaintNode)
    ensures
        covers(spec_overflow(n), spec_border_box(n)),
        forall|i: int|
            0 <= i < n.children@.len() ==> covers(
                spec_overflow(n),
                spec_overflow(#[trigger] n.children@[i]),
            ),
        spec_overflow(n).x0 == spec_border_box(n).x0 || exists|i: int|
            0 <= i < n.children@.len() && spec_overflow(n).x0 == spec_overflow(
                #[trigger] n.children@[i],
            ).x0,
        spec_overflow(n).x1 == spec_border_box(n).x1 || exists|i: int|
            0 <= i < n.children@.len() && spec_overflow(n).x1 == spec_overflow(
                #[trigger] n.children@[i],
            ).x1,
        spec_overflow(n).y0 == spec_border_box(n).y0 || exists|i: int|
            0 <= i < n.children@.len() && spec_overflow(n).y0 == spec_overflow(
                #[trigger] n.children@[i],
            ).y0,
        spec_overflow(n).y1 == spec_border_box(n).y1 || exists|i: int|
            0 <= i < n.children@.len() && spec_overflow(n).y1 == spec_overflow(
                #[trigger] n.children@[i],
            ).y1,
{
    let len = n.children@.len() as int;
    lemma_children_overflow_covers(n, len, 0);
    assert forall|i: int| 0 <= i < len implies covers(
        spec_overflow(n),
        spec_overflow(#[trigger] n.children@[i]),
    ) by {
        lemma_children_overflow_covers(n, len, i);
    }
    lemma_children_overflow_attained(n, len);
}

proof fn lemma_children_overflow_attained(n: PaintNode, k: int)
    requires
        0 <= k <= n.children@.len(),
    ensures
        spec_children_overflow(n, k).x0 == spec_border_box(n).x0 || exists|i: int|
            0 <= i < k && spec_children_overflow(n, k).x0 == spec_overflow(
                #[trigger] n.children@[i],
            ).x0,
        spec_children_overflow(n, k).x1 == spec_border_box(n).x1 || exists|i: int|
            0 <= i < k && spec_children_overflow(n, k).x1 == spec_overflow(
                #[trigger] n.children@[i],
            ).x1,
        spec_children_overflow(n, k).y0 == spec_border_box(n).y0 || exists|i: int|
            0 <= i < k && spec_children_overflow(n, k).y0 == spec_overflow(
                #[trigger] n.children@[i],
            ).y0,
        spec_children_overflow(n, k).y1 == spec_border_box(n).y1 || exists|i: int|
            0 <= i < k && spec_children_overflow(n, k).y1 == spec_overflow(
                #[trigger] n.children@[i],
            ).y1,
    decreases k,
{
    if k > 0 {
        lemma_children_overflow_attained(n, k - 1);
        let c = spec_overflow(n.children@[k - 1]);
        assert(c == spec_overflow(n.children@[k - 1]));
    }
}

/// Culling skips a whole subtree: an element whose overflow, grown by the
/// margin, misses the clip paints nothing, its descendants included; an
/// element that is not culled is painted before anything of its subtree.
pub proof fn law_cull_decides_the_subtree(n: PaintNode, clip: Rect, margin: int)
    ensures
        !spec_reaches(spec_overflow(n), margin, clip) ==> spec_painted(n, clip, margin).len() == 0,
        spec_reaches(spec_overflow(n), margin, clip) ==> spec_painted(n, clip, margin).len() > 0
            && spec_painted(n, clip, margin)[0] == n.node_id,
{
}proof fn lemma_shadows_attained(s: Seq<BoxShadow>)
    ensures
        spec_shadows_reach(s) == 0 || exists|i: int|
            0 <= i < s.len() && spec_shadows_reach(s) == spec_shadow_reach(#[trigger] s[i]),
    decreases s.len(),
{
    if s.len() > 0 {
        lemma_shadows_attained(s.drop_last());
        let p = s.drop_last();
        if spec_shadows_reach(p) != 0 && spec_shadows_reach(p) >= spec_shadow_reach(s.last()) {
            let i = choose|i: int| 0 <= i < p.len() && spec_shadows_reach(p) == spec_shadow_reach(
                #[trigger] p[i],
            );
            assert(s[i] == p[i]);
        } else {
            assert(s[s.len() - 1] == s.last());
        }
    }
}

/// An element inks no farther than it must: without filters, exactly as far
/// as its farthest-reaching shadow (or not at all); without shadows, the
/// growth of its filters added up, so one filter alone reaches its own reach.
pub proof fn law_ink_reach_is_attained(n: PaintNode)
    ensures
        n.filters@.len() == 0 ==> spec_ink_reach(n) == 0 || exists|i: int|
            0 <= i < n.shadows@.len() && spec_ink_reach(n) == spec_shadow_reach(
                #[trigger] n.shadows@[i],
            ),
        n.shadows@.len() == 0 && n.filters@.len() == 1 ==> spec_ink_reach(n) == spec_filter_reach(
            n.filters@[0],
        ),
{
    lemma_shadows_attained(n.shadows@);
    if n.filters@.len() == 1 {
        assert(n.filters@.drop_last() =~= Seq::<FilterInk>::empty());
        assert(spec_filters_reach(n.filters@.drop_last()) == 0);
        assert(n.filters@.last() == n.filters@[0]);
    }
    if n.shadows@.len() == 0 {
        assert(spec_shadows_reach(n.shadows@) == 0);
    }
}

/// A painted element is followed by its children's paint in their order:
/// the first `k + 1` children paint what the first `k` do, then what child
/// `k` paints.
pub proof fn law_children_paint_in_order(n: PaintNode, clip: Rect, margin: int)
    ensures
        spec_reaches(spec_overflow(n), margin, clip) ==> spec_painted(n, clip, margin) == seq![
            n.node_id,
        ] + spec_painted_children(n, n.children@.len() as int, clip, margin),
        spec_painted_children(n, 0, clip, margin).len() == 0,
        forall|k: int|
            0 <= k < n.children@.len() ==> spec_painted_children(n, k + 1, clip, margin)
                == spec_painted_children(n, k, clip, margin) + spec_painted(
                #[trigger] n.children@[k],
                clip,
                margin,
            ),
{
}

} // verus!
