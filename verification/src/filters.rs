//! Converts a computed `filter` / `backdrop-filter` list into the filter
//! graph a renderer applies.
//!
//! A filter's lengths live in the same space as the geometry it is applied
//! to, which is device pixels, so every length leaves here marked to be
//! multiplied by the device scale: a `blur()` gives its deviation directly,
//! while `drop-shadow()`'s third length is a blur radius whose deviation is
//! half of it. Amounts and angles are unitless and pass through.

use vstd::prelude::*;

verus! {

/// A colour, resolved, as the bits of its four `f32` components.
#[derive(Clone, Copy, Debug, PartialEq, Eq, Structural)]
pub struct FilterColor {
    pub c0: u32,
    pub c1: u32,
    pub c2: u32,
    pub c3: u32,
}

/// A computed filter function. Lengths are the bits of `f32` CSS pixels,
/// amounts the bits of `f32` factors, the hue rotation the bits of `f32`
/// radians.
#[derive(Clone, Copy, Debug, PartialEq, Eq, Structural)]
pub enum CssFilter {
    Blur { radius: u32 },
    Brightness { amount: u32 },
    Contrast { amount: u32 },
    Grayscale { amount: u32 },
    HueRotate { radians: u32 },
    Invert { amount: u32 },
    Opacity { amount: u32 },
    Saturate { amount: u32 },
    Sepia { amount: u32 },
    DropShadow { horizontal: u32, vertical: u32, blur: u32, color: FilterColor },
    Url,
}

/// A length to be put in device pixels: the bits of an `f32` CSS pixel
/// length, times the device scale, or times one half and then the device
/// scale.
#[derive(Clone, Copy, Debug, PartialEq, Eq, Structural)]
pub enum DeviceLength {
    Scaled { css: u32 },
    HalfScaled { css: u32 },
}

/// One primitive of the filter graph.
#[derive(Clone, Copy, Debug, PartialEq, Eq, Structural)]
pub enum FilterEffect {
    Blur { std_dev: DeviceLength },
    Brightness { amount: u32 },
    Contrast { amount: u32 },
    Grayscale { amount: u32 },
    HueRotate { radians: u32 },
    Invert { amount: u32 },
    Opacity { amount: u32 },
    Saturate { amount: u32 },
    Sepia { amount: u32 },
    DropShadow { dx: DeviceLength, dy: DeviceLength, std_dev: DeviceLength, color: FilterColor },
}

/// The effect a filter function becomes; a `url()` filter becomes none.
pub open spec fn spec_convert_single_filter(f: CssFilter) -> Option<FilterEffect> {
    match f {
        CssFilter::Blur { radius } => Some(
            FilterEffect::Blur { std_dev: DeviceLength::Scaled { css: radius } },
        ),
        CssFilter::Brightness { amount } => Some(FilterEffect::Brightness { amount }),
        CssFilter::Contrast { amount } => Some(FilterEffect::Contrast { amount }),
        CssFilter::Grayscale { amount } => Some(FilterEffect::Grayscale { amount }),
        CssFilter::HueRotate { radians } => Some(FilterEffect::HueRotate { radians }),
        CssFilter::Invert { amount } => Some(FilterEffect::Invert { amount }),
        CssFilter::Opacity { amount } => Some(FilterEffect::Opacity { amount }),
        CssFilter::Saturate { amount } => Some(FilterEffect::Saturate { amount }),
        CssFilter::Sepia { amount } => Some(FilterEffect::Sepia { amount }),
        CssFilter::DropShadow { horizontal, vertical, blur, color } => Some(
            FilterEffect::DropShadow {
                dx: DeviceLength::Scaled { css: horizontal },
                dy: DeviceLength::Scaled { css: vertical },
                std_dev: DeviceLength::HalfScaled { css: blur },
                color,
            },
        ),
        CssFilter::Url => None,
    }
}

/// The effects of a filter list, in order, skipping those with none.
pub open spec fn spec_filter_effects(s: Seq<CssFilter>) -> Seq<FilterEffect>
    decreases s.len(),
{
    if s.len() == 0 {
        Seq::empty()
    } else {
        let prev = spec_filter_effects(s.drop_last());
        match spec_convert_single_filter(s.last()) {
            Some(e) => prev.push(e),
            None => prev,
        }
    }
}

/// Converts one filter function into its effect, or `None` for a `url()`
/// reference, which is not supported.
pub fn convert_single_filter(filter: &CssFilter) -> (r: Option<FilterEffect>)
    ensures
        r == spec_convert_single_filter(*filter),
{
    match *filter {
        CssFilter::Blur { radius } => Some(
            FilterEffect::Blur { std_dev: DeviceLength::Scaled { css: radius } },
        ),
        CssFilter::Brightness { amount } => Some(FilterEffect::Brightness { amount }),
        CssFilter::Contrast { amount } => Some(FilterEffect::Contrast { amount }),
        CssFilter::Grayscale { amount } => Some(FilterEffect::Grayscale { amount }),
        CssFilter::HueRotate { radians } => Some(FilterEffect::HueRotate { radians }),
        CssFilter::Invert { amount } => Some(FilterEffect::Invert { amount }),
        CssFilter::Opacity { amount } => Some(FilterEffect::Opacity { amount }),
        CssFilter::Saturate { amount } => Some(FilterEffect::Saturate { amount }),
        CssFilter::Sepia { amount } => Some(FilterEffect::Sepia { amount }),
        CssFilter::DropShadow { horizontal, vertical, blur, color } => Some(
            FilterEffect::DropShadow {
                dx: DeviceLength::Scaled { css: horizontal },
                dy: DeviceLength::Scaled { css: vertical },
                std_dev: DeviceLength::HalfScaled { css: blur },
                color,
            },
        ),
        CssFilter::Url => None,
    }
}

/// Converts a computed filter list into a linear chain of effects: `None`
/// for an empty list, else the effects of its filters in order, `url()`
/// filters left out.
pub fn convert_filters(filters: &[CssFilter]) -> (r: Option<Vec<FilterEffect>>)
    ensures
        r is None <==> filters@.len() == 0,
        r matches Some(v) ==> v@ == spec_filter_effects(filters@),
{
    if filters.len() == 0 {
        return None;
    }
    let mut effects: Vec<FilterEffect> = Vec::new();
    let mut i: usize = 0;
    while i < filters.len()
        invariant
            i <= filters@.len(),
            effects@ == spec_filter_effects(filters@.subrange(0, i as int)),
        decreases filters@.len() - i,
    {
        proof {
            assert(filters@.subrange(0, i + 1).drop_last() =~= filters@.subrange(0, i as int));
        }
        if let Some(e) = convert_single_filter(&filters[i]) {
            effects.push(e);
        }
        i = i + 1;
    }
    assert(filters@.subrange(0, filters@.len() as int) =~= filters@);
    Some(effects)
}

/// How many of the filters are `url()` references.
pub open spec fn url_count(s: Seq<CssFilter>) -> int
    decreases s.len(),
{
    if s.len() == 0 {
        0
    } else {
        url_count(s.drop_last()) + if s.last() == CssFilter::Url {
            1int
        } else {
            0int
        }
    }
}

/// Every filter but a `url()` reference becomes exactly one effect of the
/// chain.
pub proof fn law_one_effect_per_supported_filter(s: Seq<CssFilter>)
    ensures
        spec_filter_effects(s).len() == s.len() - url_count(s),
    decreases s.len(),
{
    if s.len() > 0 {
        law_one_effect_per_supported_filter(s.drop_last());
    }
}/// Every filter function but a `url()` reference has an effect, and the
/// effect carries the filter's own values: its lengths marked to be put in
/// device pixels (a drop shadow's blur radius halved into a deviation), its
/// amounts and angle unchanged.
pub proof fn law_each_supported_filter_keeps_its_values(f: CssFilter)
    ensures
        spec_convert_single_filter(f) is None <==> f == CssFilter::Url,
        f matches CssFilter::Blur { radius } ==> spec_convert_single_filter(f) == Some(
            FilterEffect::Blur { std_dev: DeviceLength::Scaled { css: radius } },
        ),
        f matches CssFilter::DropShadow { horizontal, vertical, blur, color }
            ==> spec_convert_single_filter(f) == Some(
            FilterEffect::DropShadow {
                dx: DeviceLength::Scaled { css: horizontal },
                dy: DeviceLength::Scaled { css: vertical },
                std_dev: DeviceLength::HalfScaled { css: blur },
                color,
            },
        ),
        f matches CssFilter::Brightness { amount } ==> spec_convert_single_filter(f) == Some(
            FilterEffect::Brightness { amount },
        ),
        f matches CssFilter::Contrast { amount } ==> spec_convert_single_filter(f) == Some(
            FilterEffect::Contrast { amount },
        ),
        f matches CssFilter::Grayscale { amount } ==> spec_convert_single_filter(f) == Some(
            FilterEffect::Grayscale { amount },
        ),
        f matches CssFilter::HueRotate { radians } ==> spec_convert_single_filter(f) == Some(
            FilterEffect::HueRotate { radians },
        ),
        f matches CssFilter::Invert { amount } ==> spec_convert_single_filter(f) == Some(
            FilterEffect::Invert { amount },
        ),
        f matches CssFilter::Opacity { amount } ==> spec_convert_single_filter(f) == Some(
            FilterEffect::Opacity { amount },
        ),
        f matches CssFilter::Saturate { amount } ==> spec_convert_single_filter(f) == Some(
            FilterEffect::Saturate { amount },
        ),
        f matches CssFilter::Sepia { amount } ==> spec_convert_single_filter(f) == Some(
            FilterEffect::Sepia { amount },
        ),
{
}

/// Whether a filter function is supported (is not a `url()` reference).
pub open spec fn is_supported(f: CssFilter) -> bool {
    f != CssFilter::Url
}

/// The predicate of supported filters.
pub open spec fn supported() -> spec_fn(CssFilter) -> bool {
    |f: CssFilter| is_supported(f)
}

/// A supported filter's effect.
pub open spec fn effect_of() -> spec_fn(CssFilter) -> FilterEffect {
    |f: CssFilter| spec_convert_single_filter(f).unwrap()
}

/// The chain keeps the list's order: it is the list with its `url()`
/// references taken out, each remaining filter converted in place, so the
/// `k`-th effect is the conversion of the `k`-th supported filter.
pub proof fn law_chain_keeps_document_order(s: Seq<CssFilter>)
    ensures
        spec_filter_effects(s) == s.filter(supported()).map_values(effect_of()),
        spec_filter_effects(s).len() == s.filter(supported()).len(),
        forall|k: int|
            0 <= k < spec_filter_effects(s).len() ==> Some(#[trigger] spec_filter_effects(s)[k])
                == spec_convert_single_filter(s.filter(supported())[k]),
    decreases s.len(),
{
    let pred = supported();
    let conv = effect_of();
    if s.len() > 0 {
        law_chain_keeps_document_order(s.drop_last());
        let prev = s.drop_last().filter(pred);
        s.drop_last().lemma_filter_push(s.last(), pred);
        assert(s.drop_last().push(s.last()) =~= s);
        assert(s.filter(pred) == if pred(s.last()) {
            prev.push(s.last())
        } else {
            prev
        });
        if pred(s.last()) {
            assert(prev.push(s.last()).map_values(conv) =~= prev.map_values(conv).push(
                conv(s.last()),
            ));
        }
    } else {
        reveal(Seq::filter);
        assert(s.filter(pred) =~= Seq::<CssFilter>::empty());
        assert(s.filter(pred).map_values(conv) =~= Seq::<FilterEffect>::empty());
    }
    let t = s.filter(pred);
    assert forall|k: int| 0 <= k < spec_filter_effects(s).len() implies Some(
        #[trigger] spec_filter_effects(s)[k],
    ) == spec_convert_single_filter(t[k]) by {
        t.filter_lemma(pred);
        assert(pred(t[k]));
        assert(spec_filter_effects(s)[k] == conv(t[k]));
    }
}

/// Two supported filters become their two effects, in their order.
pub proof fn law_two_filters_in_order(a: CssFilter, b: CssFilter)
    requires
        is_supported(a),
        is_supported(b),
    ensures
        spec_filter_effects(seq![a, b]) == seq![
            spec_convert_single_filter(a).unwrap(),
            spec_convert_single_filter(b).unwrap(),
        ],
{
    let s = seq![a, b];
    reveal_with_fuel(spec_filter_effects, 3);
    assert(s.drop_last() =~= seq![a]);
    assert(seq![a].drop_last() =~= Seq::<CssFilter>::empty());
    assert(spec_filter_effects(seq![a, b]) =~= seq![
        spec_convert_single_filter(a).unwrap(),
        spec_convert_single_filter(b).unwrap(),
    ]);
}

} // verus!
