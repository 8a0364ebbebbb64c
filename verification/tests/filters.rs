//! A filter's lengths are in the same space as the geometry the filter is applied to,
//! which is device pixels: a length leaves the conversion marked to be multiplied by the
//! device scale, and `drop-shadow()`'s blur radius by half of it.

use blitz_layout::filters::{
    convert_filters, convert_single_filter, CssFilter, DeviceLength, FilterColor, FilterEffect,
};

const BLUR: f32 = 4.0;

const SCALES: [f32; 3] = [1.0, 2.0, 3.0];

/// Puts a length in device pixels the way a renderer applies it.
fn device(length: DeviceLength, scale: f32) -> f32 {
    match length {
        DeviceLength::Scaled { css } => f32::from_bits(css) * scale,
        DeviceLength::HalfScaled { css } => f32::from_bits(css) * 0.5 * scale,
    }
}

fn red() -> FilterColor {
    FilterColor { c0: 1.0f32.to_bits(), c1: 0, c2: 0, c3: 1.0f32.to_bits() }
}

fn only_effect(filters: &[CssFilter]) -> FilterEffect {
    let effects = convert_filters(filters).expect("a non-empty filter list");
    assert_eq!(effects.len(), 1, "expected one primitive, got {effects:?}");
    effects[0]
}

fn assert_close(actual: f64, expected: f64, what: &str) {
    assert!((actual - expected).abs() < 1e-3, "{what}: expected {expected}, got {actual}");
}

#[test]
fn a_blurs_deviation_is_in_device_pixels() {
    for scale in SCALES {
        let FilterEffect::Blur { std_dev } = only_effect(&[CssFilter::Blur { radius: BLUR.to_bits() }])
        else {
            panic!("blur({BLUR}px) did not reach the layer as a gaussian at scale {scale}");
        };
        assert_close(
            device(std_dev, scale) as f64,
            (BLUR * scale) as f64,
            &format!("the deviation of blur({BLUR}px) at scale {scale}"),
        );
    }
}

#[test]
fn a_backdrop_filters_deviation_is_in_device_pixels_too() {
    // A backdrop filter list goes through the same conversion.
    for scale in SCALES {
        let FilterEffect::Blur { std_dev } = only_effect(&[CssFilter::Blur { radius: BLUR.to_bits() }])
        else {
            panic!("backdrop-filter: blur({BLUR}px) did not reach the layer as a gaussian");
        };
        assert_close(
            device(std_dev, scale) as f64,
            (BLUR * scale) as f64,
            &format!("the deviation of a backdrop blur({BLUR}px) at scale {scale}"),
        );
    }
}

#[test]
fn a_drop_shadows_offset_and_deviation_are_in_device_pixels() {
    let shadow = CssFilter::DropShadow {
        horizontal: 4.0f32.to_bits(),
        vertical: 8.0f32.to_bits(),
        blur: 2.0f32.to_bits(),
        color: red(),
    };
    for scale in SCALES {
        let FilterEffect::DropShadow { dx, dy, std_dev, color } = only_effect(&[shadow]) else {
            panic!("drop-shadow() did not reach the layer as a shadow at scale {scale}");
        };
        assert_close(device(dx, scale) as f64, (4.0 * scale) as f64, "a drop shadow's horizontal offset");
        assert_close(device(dy, scale) as f64, (8.0 * scale) as f64, "a drop shadow's vertical offset");
        assert_close(
            device(std_dev, scale) as f64,
            (1.0 * scale) as f64,
            "a drop shadow's deviation, which is half the 2px blur radius it was given",
        );
        assert_eq!(color, red());
    }
}

#[test]
fn an_empty_filter_list_is_no_filter() {
    assert_eq!(convert_filters(&[]), None);
}

#[test]
fn url_filters_are_dropped_and_order_is_kept() {
    let list = [
        CssFilter::Url,
        CssFilter::Opacity { amount: 0.5f32.to_bits() },
        CssFilter::Url,
        CssFilter::HueRotate { radians: 1.5f32.to_bits() },
    ];
    assert_eq!(
        convert_filters(&list),
        Some(vec![
            FilterEffect::Opacity { amount: 0.5f32.to_bits() },
            FilterEffect::HueRotate { radians: 1.5f32.to_bits() },
        ])
    );
    // A list of only unsupported filters is an empty chain, not no filter.
    assert_eq!(convert_filters(&[CssFilter::Url]), Some(Vec::new()));
}

#[test]
fn amounts_pass_through_unscaled() {
    let bits = 0.3f32.to_bits();
    let cases = [
        (CssFilter::Brightness { amount: bits }, FilterEffect::Brightness { amount: bits }),
        (CssFilter::Contrast { amount: bits }, FilterEffect::Contrast { amount: bits }),
        (CssFilter::Grayscale { amount: bits }, FilterEffect::Grayscale { amount: bits }),
        (CssFilter::Invert { amount: bits }, FilterEffect::Invert { amount: bits }),
        (CssFilter::Saturate { amount: bits }, FilterEffect::Saturate { amount: bits }),
        (CssFilter::Sepia { amount: bits }, FilterEffect::Sepia { amount: bits }),
    ];
    for (filter, effect) in cases {
        assert_eq!(convert_single_filter(&filter), Some(effect));
    }
    assert_eq!(convert_single_filter(&CssFilter::Url), None);
}
