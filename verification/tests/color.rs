use theme_switch::color::calc_contrast_color;
use theme_switch::color::calc_luminance_scaled;

#[test]
fn contrast_white_background() {
    // luminance 0.8 * 255 = 204 >= 128: darken toward 64, scale 64/204
    assert_eq!(calc_contrast_color(255, 255, 255), (80, 80, 80));
}

#[test]
fn contrast_black_background() {
    // zero luminance: the special case yields the brightest foreground
    assert_eq!(calc_contrast_color(0, 0, 0), (255, 255, 255));
}

#[test]
fn contrast_dark_background_brightens() {
    // luminance 25.4592 < 128: brighten toward 128
    assert_eq!(calc_contrast_color(30, 30, 46), (151, 151, 231));
}

#[test]
fn contrast_threshold_is_light() {
    // luminance exactly 128: counts as light, scale 64/128
    assert_eq!(calc_luminance_scaled(160, 160, 160), 1_280_000);
    assert_eq!(calc_contrast_color(160, 160, 160), (80, 80, 80));
}

#[test]
fn contrast_clamps_at_channel_max() {
    // a very dark red scales far past 255 and is capped there
    assert_eq!(calc_contrast_color(2, 0, 0), (255, 0, 0));
}

#[test]
fn contrast_is_deterministic() {
    let first = calc_contrast_color(12, 200, 7);
    let second = calc_contrast_color(12, 200, 7);
    assert_eq!(first, second);
    let third = calc_contrast_color(12, 200, 7);
    assert_eq!(second, third);
}

#[test]
fn luminance_weights() {
    // 2392 r + 4696 g + 912 b, one channel at a time
    assert_eq!(calc_luminance_scaled(1, 0, 0), 2392);
    assert_eq!(calc_luminance_scaled(0, 1, 0), 4696);
    assert_eq!(calc_luminance_scaled(0, 0, 1), 912);
    assert_eq!(calc_luminance_scaled(255, 255, 255), 2_040_000);
}
