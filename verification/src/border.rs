//! Border sides in app units (1/60 px) and the widths they contribute to a
//! collapsed table border grid.

use vstd::prelude::*;

verus! {

/// A border side's line style.
#[derive(Clone, Copy, Debug, PartialEq, Eq, Structural)]
pub enum BorderStyle {
    Hidden,
    NoBorder,
    Inset,
    Groove,
    Outset,
    Ridge,
    Dotted,
    Dashed,
    Solid,
    Double,
}

impl BorderStyle {
    /// Whether the style draws no line at all (`none` or `hidden`).
    pub open spec fn spec_none_or_hidden(self) -> bool {
        self == BorderStyle::NoBorder || self == BorderStyle::Hidden
    }

    #[verifier::when_used_as_spec(spec_none_or_hidden)]
    pub fn none_or_hidden(self) -> (r: bool)
        ensures
            r == self.spec_none_or_hidden(),
    {
        match self {
            BorderStyle::NoBorder | BorderStyle::Hidden => true,
            _ => false,
        }
    }
}

/// The used width of one border side, in app units.
pub open spec fn spec_used_border_width(style: BorderStyle, width: i32) -> i32 {
    if style.spec_none_or_hidden() {
        0
    } else {
        width
    }
}

/// The used width of one border side: zero when the side's style is
/// `none`/`hidden`, else its computed width.
pub fn used_border_width(style: BorderStyle, width: i32) -> (r: i32)
    ensures
        r == spec_used_border_width(style, width),
{
    if style.none_or_hidden() {
        0
    } else {
        width
    }
}

} // verus!

verus! {

/// One side of a border: its line style and computed width in app units.
#[derive(Clone, Copy, Debug, PartialEq, Eq, Structural)]
pub struct BorderSide {
    pub style: BorderStyle,
    pub width: i32,
}

/// The four sides of a box's border.
#[derive(Clone, Copy, Debug, PartialEq, Eq, Structural)]
pub struct Border {
    pub top: BorderSide,
    pub right: BorderSide,
    pub bottom: BorderSide,
    pub left: BorderSide,
}

pub open spec fn max_i32(a: i32, b: i32) -> i32 {
    if a >= b {
        a
    } else {
        b
    }
}

impl BorderSide {
    pub open spec fn used(self) -> i32 {
        spec_used_border_width(self.style, self.width)
    }
}

/// The horizontal-line width (x) and vertical-line width (y) a border adds to
/// a collapsed border grid.
pub open spec fn spec_collapsed_axis_widths(border: Border) -> (i32, i32) {
    (
        max_i32(border.left.used(), border.right.used()),
        max_i32(border.top.used(), border.bottom.used()),
    )
}

/// The widths a border contributes to the collapsed border grid, per axis:
/// x is its widest visible left/right side, y its widest visible top/bottom
/// side.
pub fn collapsed_axis_widths(border: &Border) -> (r: (i32, i32))
    ensures
        r == spec_collapsed_axis_widths(*border),
{
    let l = used_border_width(border.left.style, border.left.width);
    let r = used_border_width(border.right.style, border.right.width);
    let t = used_border_width(border.top.style, border.top.width);
    let b = used_border_width(border.bottom.style, border.bottom.width);
    let x = if l >= r { l } else { r };
    let y = if t >= b { t } else { b };
    (x, y)
}

} // verus!

verus! {

/// Whether a side's style draws a line: anything but `none` and `hidden`.
pub open spec fn draws_line(style: BorderStyle) -> bool {
    style != BorderStyle::NoBorder && style != BorderStyle::Hidden
}

/// A side that draws a line is as wide as its computed width; a `none` or
/// `hidden` side has no width, whatever its computed width.
pub proof fn law_used_width_is_computed_width_of_drawn_sides(style: BorderStyle, width: i32)
    ensures
        draws_line(style) ==> spec_used_border_width(style, width) == width,
        !draws_line(style) ==> spec_used_border_width(style, width) == 0,
        style == BorderStyle::Solid || style == BorderStyle::Dashed || style == BorderStyle::Dotted
            || style == BorderStyle::Double || style == BorderStyle::Groove || style
            == BorderStyle::Ridge || style == BorderStyle::Inset || style == BorderStyle::Outset
            ==> spec_used_border_width(style, width) == width,
{
}

/// The width a side adds to a collapsed grid: its computed width when it
/// draws a line, else nothing.
pub open spec fn drawn_width(side: BorderSide) -> i32 {
    if draws_line(side.style) {
        side.width
    } else {
        0
    }
}

/// Each axis of a collapsed border takes the wider of its two sides' drawn
/// widths: it is at least each of them and equal to one of them.
pub proof fn law_collapsed_axis_is_widest_drawn_side(border: Border)
    ensures
        spec_collapsed_axis_widths(border).0 >= drawn_width(border.left),
        spec_collapsed_axis_widths(border).0 >= drawn_width(border.right),
        spec_collapsed_axis_widths(border).0 == drawn_width(border.left)
            || spec_collapsed_axis_widths(border).0 == drawn_width(border.right),
        spec_collapsed_axis_widths(border).1 >= drawn_width(border.top),
        spec_collapsed_axis_widths(border).1 >= drawn_width(border.bottom),
        spec_collapsed_axis_widths(border).1 == drawn_width(border.top)
            || spec_collapsed_axis_widths(border).1 == drawn_width(border.bottom),
{
}

} // verus!
