use miniprinter::scale::board_dimensions;
use miniprinter::scale::scale100;
use miniprinter::scale::scaled_height;
use miniprinter::scale::target_width;
use miniprinter::scale::RenderError;

#[test]
fn bitmap_width_is_exactly_chars_times_pixels() {
    assert_eq!(target_width(32, 12), 384);
    assert_eq!(target_width(48, 8), 384);
    assert_eq!(target_width(255, 255), 65025);
}

#[test]
fn end_to_end_board_scaling_scenario() {
    // A 300x300 board at 32 columns of 12 dots: target width 384, scale
    // round(384/300 * 100) = 128 hundredths, output bitmap 384x384.
    assert_eq!(scale100(384, 300), 128);
    assert_eq!(board_dimensions(300, 300, 32, 12), Ok((384, 384)));
}

#[test]
fn scale_is_deterministic() {
    let a = scale100(384, 300);
    let b = scale100(384, 300);
    assert_eq!(a, b);
    assert_eq!(a, 128);
}

#[test]
fn scale_rounds_to_nearest_hundredth() {
    // 384 / 250 = 1.536, which rounds to 154 hundredths.
    assert_eq!(scale100(384, 250), 154);
    // 1 / 8 = 0.125: the exact half rounds up to 13 hundredths.
    assert_eq!(scale100(1, 8), 13);
    // 100 / 3 = 33.33..: rounds down to 3333 hundredths.
    assert_eq!(scale100(100, 3), 3333);
}

#[test]
fn height_rounds_to_nearest_pixel() {
    // 3 units at a scale of 0.50 is 1.5 pixels, rounded up to 2.
    assert_eq!(scaled_height(3, 50), 2);
    // 300 units at 1.28 is exactly 384.
    assert_eq!(scaled_height(300, 128), 384);
    // 10 units at 1.01 is 10.1, rounded down to 10.
    assert_eq!(scaled_height(10, 101), 10);
}

#[test]
fn zero_intrinsic_width_is_a_render_error() {
    assert_eq!(
        board_dimensions(0, 300, 32, 12),
        Err(RenderError::ZeroIntrinsicWidth)
    );
}

#[test]
fn unrepresentable_height_is_a_render_error() {
    assert_eq!(
        board_dimensions(1, u32::MAX, 255, 255),
        Err(RenderError::HeightOverflow)
    );
}

#[test]
fn tall_narrow_board_keeps_aspect_ratio() {
    // 100x400 board at 384 target width: scale 3.84, height 1536.
    assert_eq!(board_dimensions(100, 400, 32, 12), Ok((384, 1536)));
}
