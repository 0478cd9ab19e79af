use wave::Color;
use wave::Stage;

const FP: i64 = 65536;

#[test]
fn new_stage_has_width_times_height_pixels() {
    let stage = Stage::new(8, 6);
    assert_eq!(stage.width(), 8);
    assert_eq!(stage.height(), 6);
    assert_eq!(stage.len(), 8 * 6);
    assert_eq!(stage.dimensions(), (8, 6));
    assert!(!stage.is_empty());
}

#[test]
fn new_stage_is_transparent_black() {
    let stage = Stage::new(4, 3);
    for y in 0..3 {
        for x in 0..4 {
            assert_eq!(stage.get_pixel(x, y), Some([0, 0, 0, 0]));
        }
    }
}

#[test]
fn pixel_written_in_bounds_reads_back_identically() {
    let mut stage = Stage::new(8, 6);
    stage.set_pixel(3, 2, Color::new([1, 2, 3, 4]));
    assert_eq!(stage.get_pixel(3, 2), Some([1, 2, 3, 4]));
    // neighbours untouched
    assert_eq!(stage.get_pixel(2, 2), Some([0, 0, 0, 0]));
    assert_eq!(stage.get_pixel(3, 1), Some([0, 0, 0, 0]));
}

#[test]
fn out_of_bounds_read_yields_absent() {
    let stage = Stage::new(8, 6);
    assert_eq!(stage.get_pixel(8, 0), None);
    assert_eq!(stage.get_pixel(0, 6), None);
    assert_eq!(stage.get_pixel(100, 100), None);
}

#[test]
fn out_of_bounds_writes_are_ignored() {
    let mut stage = Stage::new(8, 6);
    stage.set_pixel(8, 0, Color::white());
    stage.set_pixel(0, 6, Color::white());
    stage.plot(-1, 0, Color::white());
    stage.plot(0, -1, Color::white());
    stage.plot(8, 5, Color::white());
    for y in 0..6 {
        for x in 0..8 {
            assert_eq!(stage.get_pixel(x, y), Some([0, 0, 0, 0]));
        }
    }
}

#[test]
fn plot_writes_signed_in_bounds_pixel() {
    let mut stage = Stage::new(8, 6);
    stage.plot(7, 5, Color::blue());
    assert_eq!(stage.get_pixel(7, 5), Some([0, 0, 255, 255]));
}

#[test]
fn fill_span_colors_exactly_the_span() {
    let mut stage = Stage::new(10, 5);
    stage.fill_span(2, 3, 6, Color::red());
    for y in 0..5 {
        for x in 0..10 {
            let expected = if y == 2 && (3..=6).contains(&x) {
                [255, 0, 0, 255]
            } else {
                [0, 0, 0, 0]
            };
            assert_eq!(stage.get_pixel(x, y), Some(expected));
        }
    }
}

#[test]
fn fill_span_is_order_independent() {
    let mut a = Stage::new(10, 5);
    let mut b = Stage::new(10, 5);
    a.fill_span(1, 2, 7, Color::green());
    b.fill_span(1, 7, 2, Color::green());
    assert_eq!(a.as_bytes(), b.as_bytes());
}

#[test]
fn fill_span_clips_to_the_stage() {
    let mut stage = Stage::new(6, 4);
    stage.fill_span(0, -100, 100, Color::white());
    for x in 0..6 {
        assert_eq!(stage.get_pixel(x, 0), Some([255, 255, 255, 255]));
    }
    for x in 0..6 {
        assert_eq!(stage.get_pixel(x, 1), Some([0, 0, 0, 0]));
    }
}

#[test]
fn fill_span_off_canvas_is_a_no_op() {
    let mut stage = Stage::new(6, 4);
    stage.fill_span(-1, 0, 5, Color::white());
    stage.fill_span(4, 0, 5, Color::white());
    stage.fill_span(1, -10, -2, Color::white());
    stage.fill_span(1, 6, 20, Color::white());
    for y in 0..4 {
        for x in 0..6 {
            assert_eq!(stage.get_pixel(x, y), Some([0, 0, 0, 0]));
        }
    }
}

#[test]
fn clear_resets_every_pixel_after_any_draws() {
    let mut stage = Stage::new(9, 7);
    stage.set_pixel(1, 1, Color::red());
    stage.fill_span(3, 0, 8, Color::white());
    wave::shapes::circle(&mut stage, (0, 0), 3 * FP, wave::Style::make_fill(Color::blue()));
    stage.clear(Color::transparent());
    for y in 0..7 {
        for x in 0..9 {
            assert_eq!(stage.get_pixel(x, y), Some([0, 0, 0, 0]));
        }
    }
}

#[test]
fn clear_sets_the_given_color() {
    let mut stage = Stage::new(3, 3);
    stage.clear(Color::new([9, 8, 7, 6]));
    for y in 0..3 {
        for x in 0..3 {
            assert_eq!(stage.get_pixel(x, y), Some([9, 8, 7, 6]));
        }
    }
}

#[test]
fn as_bytes_packs_row_major_rgba() {
    let mut stage = Stage::new(2, 2);
    stage.set_pixel(0, 0, Color::new([1, 2, 3, 4]));
    stage.set_pixel(1, 0, Color::new([5, 6, 7, 8]));
    stage.set_pixel(0, 1, Color::new([9, 10, 11, 12]));
    stage.set_pixel(1, 1, Color::new([13, 14, 15, 16]));
    let bytes = stage.as_bytes();
    assert_eq!(bytes.len(), 2 * 2 * 4);
    assert_eq!(
        bytes,
        vec![1, 2, 3, 4, 5, 6, 7, 8, 9, 10, 11, 12, 13, 14, 15, 16]
    );
}

#[test]
fn pixels_and_pixels_mut_expose_the_framebuffer() {
    let mut stage = Stage::new(3, 2);
    stage.set_pixel(2, 1, Color::red());
    assert_eq!(stage.pixels().len(), 6);
    assert_eq!(stage.pixels()[5], [255, 0, 0, 255]);
    stage.pixels_mut()[0] = [7, 7, 7, 7];
    assert_eq!(stage.get_pixel(0, 0), Some([7, 7, 7, 7]));
}

#[test]
fn world_origin_maps_to_center_pixel_for_odd_dimensions() {
    let stage = Stage::new(21, 15);
    assert_eq!(stage.world_to_pixel((0, 0)), Some((10, 7)));
}

#[test]
fn world_to_pixel_is_deterministic_and_rounds_to_nearest() {
    let stage = Stage::new(20, 15);
    // center offsets are (20-1)/2 = 9.5 and (15-1)/2 = 7
    assert_eq!(stage.world_to_pixel((0, 0)), Some((10, 7)));
    assert_eq!(stage.world_to_pixel((0, 0)), Some((10, 7)));
    assert_eq!(stage.world_to_pixel((FP, -2 * FP)), Some((11, 9)));
    assert_eq!(stage.world_to_pixel((-FP, 2 * FP)), Some((9, 5)));
    // 0.25 px shy of the center column rounds back to it
    assert_eq!(stage.world_to_pixel((-FP / 4, 0)), Some((9, 7)));
}

#[test]
fn world_to_pixel_rejects_unrepresentable_coordinates() {
    let stage = Stage::new(20, 15);
    assert_eq!(stage.world_to_pixel((i64::MAX, 0)), None);
    assert_eq!(stage.world_to_pixel((0, i64::MIN)), None);
}
