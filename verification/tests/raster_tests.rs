use wave::fill_triangle;
use wave::shapes::circle;
use wave::shapes::equilateral_triangle;
use wave::shapes::rectangle;
use wave::shapes::square;
use wave::Color;
use wave::Stage;
use wave::Style;

const FP: i64 = 65536;

/// The horizontal half-extent of a circle of radius `r` at row offset
/// `dy`: the largest `x >= 0` with `x*x + dy*dy <= r*r`.
fn extent(r: i64, dy: i64) -> i64 {
    let mut x: i64 = r;
    while x > 0 && x * x + dy * dy > r * r {
        x -= 1;
    }
    x
}

#[test]
fn triangle_scan_fill_covers_discrete_right_triangle() {
    let mut stage = Stage::new(20, 15);
    fill_triangle(&mut stage, (0, 0), (10, 0), (0, 10), Color::white());
    for y in 0..15i32 {
        for x in 0..20i32 {
            let expected = if x + y <= 9 && y <= 9 {
                [255, 255, 255, 255]
            } else {
                [0, 0, 0, 0]
            };
            assert_eq!(
                stage.get_pixel(x as usize, y as usize),
                Some(expected),
                "pixel ({}, {})",
                x,
                y
            );
        }
    }
}

#[test]
fn split_triangle_fill_leaves_no_gap_at_the_split_row() {
    // vertices with three distinct rows force a flat-bottom/flat-top split
    let mut stage = Stage::new(20, 20);
    fill_triangle(&mut stage, (2, 2), (14, 8), (4, 16), Color::red());
    // every row between the top and bottom vertex rows (away from the
    // degenerate tips) has at least one filled pixel: no seam at row 8
    for y in 3..15 {
        let mut any = false;
        for x in 0..20 {
            if stage.get_pixel(x, y) == Some([255, 0, 0, 255]) {
                any = true;
            }
        }
        assert!(any, "row {} empty", y);
    }
}

#[test]
fn degenerate_triangle_is_a_no_op() {
    let mut stage = Stage::new(10, 10);
    fill_triangle(&mut stage, (1, 4), (5, 4), (8, 4), Color::white());
    for y in 0..10 {
        for x in 0..10 {
            assert_eq!(stage.get_pixel(x, y), Some([0, 0, 0, 0]));
        }
    }
}

#[test]
fn stroke_only_world_line_draws_connected_diagonal_run() {
    let mut stage = Stage::new(20, 15);
    let style = Style::make_stroke(Color::white());
    wave::shapes::line(&mut stage, (-FP, -2 * FP), (FP, FP), style);
    // endpoints map to (9, 9) and (11, 6); the error-accumulator walk
    // passes through (10, 8) and (10, 7)
    let white = Some([255, 255, 255, 255]);
    assert_eq!(stage.get_pixel(9, 9), white);
    assert_eq!(stage.get_pixel(10, 8), white);
    assert_eq!(stage.get_pixel(10, 7), white);
    assert_eq!(stage.get_pixel(11, 6), white);
    let mut painted = 0;
    for y in 0..15 {
        for x in 0..20 {
            if stage.get_pixel(x, y) != Some([0, 0, 0, 0]) {
                painted += 1;
                assert_eq!(stage.get_pixel(x, y), white);
            }
        }
    }
    assert_eq!(painted, 4);
}

#[test]
fn line_ignores_fill_and_requires_a_stroke() {
    let mut stage = Stage::new(20, 15);
    wave::shapes::line(&mut stage, (-FP, 0), (FP, 0), Style::make_fill(Color::red()));
    for y in 0..15 {
        for x in 0..20 {
            assert_eq!(stage.get_pixel(x, y), Some([0, 0, 0, 0]));
        }
    }
}

#[test]
fn zero_length_line_still_plots_its_single_pixel() {
    let mut stage = Stage::new(20, 15);
    wave::shapes::line(&mut stage, (0, 0), (0, 0), Style::make_stroke(Color::green()));
    let mut painted = 0;
    for y in 0..15 {
        for x in 0..20 {
            if stage.get_pixel(x, y) != Some([0, 0, 0, 0]) {
                painted += 1;
                assert_eq!((x, y), (10, 7));
            }
        }
    }
    assert_eq!(painted, 1);
}

#[test]
fn fully_off_canvas_line_is_skipped() {
    let mut stage = Stage::new(10, 10);
    wave::shapes::line(
        &mut stage,
        (-100 * FP, -100 * FP),
        (-100 * FP, 100 * FP),
        Style::make_stroke(Color::white()),
    );
    for y in 0..10 {
        for x in 0..10 {
            assert_eq!(stage.get_pixel(x, y), Some([0, 0, 0, 0]));
        }
    }
}

#[test]
fn filled_stroked_circle_has_red_disk_white_ring_transparent_outside() {
    let mut stage = Stage::new(20, 15);
    let style = Style::new(Some(Color::red()), Some(Color::white()));
    circle(&mut stage, (FP, FP), 4 * FP, style);
    // center maps to (11, 6); stroke width 1 gives outer radius 5 and
    // inner radius 4, the fill stopping at the inner radius
    let (xc, yc) = (11i64, 6i64);
    for y in 0..15i64 {
        for x in 0..20i64 {
            let dx = (x - xc).abs();
            let dy = (y - yc).abs();
            let expected = if dy <= 5 {
                let out = extent(5, dy);
                let inner = if dy <= 4 { extent(4, dy) } else { -1 };
                if inner + 1 <= dx && dx <= out {
                    [255, 255, 255, 255]
                } else if dy <= 4 && dx <= extent(4, dy) {
                    [255, 0, 0, 255]
                } else {
                    [0, 0, 0, 0]
                }
            } else {
                [0, 0, 0, 0]
            };
            assert_eq!(
                stage.get_pixel(x as usize, y as usize),
                Some(expected),
                "pixel ({}, {})",
                x,
                y
            );
        }
    }
}

#[test]
fn non_positive_radius_circle_is_a_no_op() {
    let mut stage = Stage::new(10, 10);
    circle(&mut stage, (0, 0), 0, Style::make_fill(Color::red()));
    circle(&mut stage, (0, 0), -3 * FP, Style::make_fill(Color::red()));
    for y in 0..10 {
        for x in 0..10 {
            assert_eq!(stage.get_pixel(x, y), Some([0, 0, 0, 0]));
        }
    }
}

#[test]
fn circle_without_fill_or_stroke_is_a_no_op() {
    let mut stage = Stage::new(10, 10);
    circle(&mut stage, (0, 0), 3 * FP, Style::new(None, None));
    for y in 0..10 {
        for x in 0..10 {
            assert_eq!(stage.get_pixel(x, y), Some([0, 0, 0, 0]));
        }
    }
}

#[test]
fn filled_rectangle_covers_strict_interior_between_crossings() {
    let mut stage = Stage::new(21, 15);
    rectangle(&mut stage, (0, 0), 4 * FP, 4 * FP, Style::make_fill(Color::blue()));
    // corners map to columns 8 and 12, rows 5 and 9; the parity fill
    // narrows each span by one pixel on each side and stops one row above
    // the bottom edge
    for y in 0..15 {
        for x in 0..21 {
            let expected = if (9..=11).contains(&x) && (5..=8).contains(&y) {
                [0, 0, 255, 255]
            } else {
                [0, 0, 0, 0]
            };
            assert_eq!(stage.get_pixel(x, y), Some(expected), "pixel ({}, {})", x, y);
        }
    }
}

#[test]
fn rerunning_an_identical_fill_is_idempotent() {
    let mut once = Stage::new(21, 15);
    let mut twice = Stage::new(21, 15);
    let style = Style::make_fill(Color::green());
    rectangle(&mut once, (0, 0), 6 * FP, 4 * FP, style);
    rectangle(&mut twice, (0, 0), 6 * FP, 4 * FP, style);
    rectangle(&mut twice, (0, 0), 6 * FP, 4 * FP, style);
    assert_eq!(once.as_bytes(), twice.as_bytes());
}

#[test]
fn square_equals_rectangle_with_equal_extents() {
    let mut a = Stage::new(21, 15);
    let mut b = Stage::new(21, 15);
    let style = Style::new(Some(Color::red()), Some(Color::white()));
    square(&mut a, (FP, -FP), 5 * FP, style);
    rectangle(&mut b, (FP, -FP), 5 * FP, 5 * FP, style);
    assert_eq!(a.as_bytes(), b.as_bytes());
}

#[test]
fn non_positive_extents_are_no_ops() {
    let mut stage = Stage::new(10, 10);
    rectangle(&mut stage, (0, 0), 0, 4 * FP, Style::make_fill(Color::red()));
    rectangle(&mut stage, (0, 0), 4 * FP, -FP, Style::make_fill(Color::red()));
    square(&mut stage, (0, 0), 0, Style::make_fill(Color::red()));
    equilateral_triangle(&mut stage, (0, 0), -FP, Style::make_fill(Color::red()));
    for y in 0..10 {
        for x in 0..10 {
            assert_eq!(stage.get_pixel(x, y), Some([0, 0, 0, 0]));
        }
    }
}

#[test]
fn filled_equilateral_triangle_covers_expected_rows() {
    let mut stage = Stage::new(21, 21);
    equilateral_triangle(&mut stage, (0, 0), 6 * FP, Style::make_fill(Color::white()));
    // apex at pixel (10, 7), base corners at (7, 12) and (13, 12); the
    // scan walk fills these spans, exclusive of the bottom row
    let spans: [(usize, i64, i64); 5] = [(7, 1, 0), (8, 10, 10), (9, 9, 11), (10, 9, 11), (11, 8, 12)];
    for (y, lo, hi) in spans {
        for x in 0..21i64 {
            let expected = if x >= lo && x <= hi {
                [255, 255, 255, 255]
            } else {
                [0, 0, 0, 0]
            };
            assert_eq!(stage.get_pixel(x as usize, y), Some(expected), "pixel ({}, {})", x, y);
        }
    }
    for x in 0..21 {
        assert_eq!(stage.get_pixel(x, 12), Some([0, 0, 0, 0]));
        assert_eq!(stage.get_pixel(x, 6), Some([0, 0, 0, 0]));
    }
}

#[test]
fn world_triangle_with_unrepresentable_vertex_is_abandoned() {
    let mut stage = Stage::new(10, 10);
    wave::shapes::triangle(
        &mut stage,
        (0, 0),
        (i64::MAX, 0),
        (0, 2 * FP),
        Style::make_fill(Color::red()),
    );
    for y in 0..10 {
        for x in 0..10 {
            assert_eq!(stage.get_pixel(x, y), Some([0, 0, 0, 0]));
        }
    }
}

#[test]
fn thick_stroke_line_is_wider_than_thin() {
    let mut thin = Stage::new(31, 31);
    let mut thick = Stage::new(31, 31);
    let mut style = Style::make_stroke(Color::white());
    wave::shapes::line(&mut thin, (-10 * FP, 0), (10 * FP, 0), style);
    style.set_stroke_width(5 * FP as u64);
    wave::shapes::line(&mut thick, (-10 * FP, 0), (10 * FP, 0), style);
    let count = |s: &Stage| {
        let mut n = 0;
        for y in 0..31 {
            for x in 0..31 {
                if s.get_pixel(x, y) != Some([0, 0, 0, 0]) {
                    n += 1;
                }
            }
        }
        n
    };
    let thin_count = count(&thin);
    let thick_count = count(&thick);
    assert!(thin_count > 0);
    assert!(thick_count > 2 * thin_count);
}

#[test]
fn invalid_stroke_width_draws_nothing() {
    let mut stage = Stage::new(15, 15);
    let mut style = Style::make_stroke(Color::white());
    style.set_stroke_width(0);
    wave::shapes::line(&mut stage, (-3 * FP, 0), (3 * FP, 0), style);
    for y in 0..15 {
        for x in 0..15 {
            assert_eq!(stage.get_pixel(x, y), Some([0, 0, 0, 0]));
        }
    }
}

#[test]
fn wider_circle_stroke_widens_the_annulus_both_ways() {
    let mut one = Stage::new(31, 31);
    let mut three = Stage::new(31, 31);
    let mut style = Style::make_stroke(Color::white());
    circle(&mut one, (0, 0), 6 * FP, style);
    style.set_stroke_width(3 * FP as u64);
    circle(&mut three, (0, 0), 6 * FP, style);
    let painted =
        |s: &Stage, x: usize, y: usize| s.get_pixel(x, y) == Some([255, 255, 255, 255]);
    // every pixel of the one-pixel ring is inside the wider ring
    for y in 0..31 {
        for x in 0..31 {
            if painted(&one, x, y) {
                assert!(painted(&three, x, y), "pixel ({}, {})", x, y);
            }
        }
    }
    // along the +x axis from the center (15, 15): width 1 paints the
    // one-pixel shell at radius 7; width 3 reaches one pixel farther out
    // and one farther in, radii 6 through 8
    assert!(!painted(&one, 15 + 6, 15) && painted(&three, 15 + 6, 15));
    assert!(painted(&one, 15 + 7, 15) && painted(&three, 15 + 7, 15));
    assert!(!painted(&one, 15 + 8, 15) && painted(&three, 15 + 8, 15));
    assert!(!painted(&one, 15 + 9, 15) && !painted(&three, 15 + 9, 15));
}

#[test]
fn triangle_stroke_is_drawn_over_its_fill() {
    let mut stage = Stage::new(21, 21);
    let style = Style::new(Some(Color::red()), Some(Color::white()));
    wave::draw_triangle_pxl(&mut stage, (3, 3), (17, 3), (3, 17), style);
    // a vertex lies on the boundary lines, so it is white even though the
    // scan fill also covers it
    assert_eq!(stage.get_pixel(3, 3), Some([255, 255, 255, 255]));
    assert_eq!(stage.get_pixel(17, 3), Some([255, 255, 255, 255]));
    assert_eq!(stage.get_pixel(3, 17), Some([255, 255, 255, 255]));
    // a pixel well inside keeps the fill color
    assert_eq!(stage.get_pixel(6, 6), Some([255, 0, 0, 255]));
}

#[test]
fn circle_is_clipped_at_the_stage_edge() {
    let mut stage = Stage::new(9, 9);
    // center maps to (4, 4); radius 6 pokes past every edge
    circle(&mut stage, (0, 0), 6 * FP, Style::make_fill(Color::green()));
    // the whole stage lies within the disk except the extreme corners
    assert_eq!(stage.get_pixel(4, 4), Some([0, 255, 0, 255]));
    assert_eq!(stage.get_pixel(0, 4), Some([0, 255, 0, 255]));
    assert_eq!(stage.get_pixel(4, 0), Some([0, 255, 0, 255]));
    assert_eq!(stage.get_pixel(8, 8), Some([0, 255, 0, 255]));
    // drawing never faulted and never wrapped to another row
    assert_eq!(stage.len(), 81);
}

#[test]
fn translucent_fill_writes_its_effective_alpha() {
    let mut stage = Stage::new(11, 11);
    let mut style = Style::make_fill(Color::new([10, 20, 30, 200]));
    style.set_fill_opacity(wave::Opacity::new(128));
    circle(&mut stage, (0, 0), 2 * FP, style);
    // effective alpha: (200 * 128 + 127) / 255 == 100; the framebuffer
    // does no blending, the resolved color is written as-is
    assert_eq!(stage.get_pixel(5, 5), Some([10, 20, 30, 100]));
    assert_eq!(stage.get_pixel(0, 0), Some([0, 0, 0, 0]));
}
