use wave::Color;
use wave::Path;
use wave::Stage;
use wave::Style;

const FP: i64 = 65536;

#[test]
fn closed_path_render_fills_the_interior() {
    let mut stage = Stage::new(21, 15);
    let nodes = vec![
        (-2 * FP, 2 * FP),
        (2 * FP, 2 * FP),
        (2 * FP, -2 * FP),
        (-2 * FP, -2 * FP),
    ];
    let path = Path::new(nodes, true);
    path.render(&mut stage, Style::make_fill(Color::white()));
    // corners map to columns 8 and 12, rows 5 and 9; the fill spans are
    // narrowed by one pixel on each side and exclude the bottom row
    for y in 0..15 {
        for x in 0..21 {
            let expected = if (9..=11).contains(&x) && (5..=8).contains(&y) {
                [255, 255, 255, 255]
            } else {
                [0, 0, 0, 0]
            };
            assert_eq!(stage.get_pixel(x, y), Some(expected), "pixel ({}, {})", x, y);
        }
    }
}

#[test]
fn open_path_render_never_fills() {
    let mut stage = Stage::new(21, 15);
    let nodes = vec![
        (-2 * FP, 2 * FP),
        (2 * FP, 2 * FP),
        (2 * FP, -2 * FP),
        (-2 * FP, -2 * FP),
    ];
    let path = Path::new(nodes, false);
    path.render(&mut stage, Style::make_fill(Color::white()));
    for y in 0..15 {
        for x in 0..21 {
            assert_eq!(stage.get_pixel(x, y), Some([0, 0, 0, 0]));
        }
    }
}

#[test]
fn path_with_unrepresentable_node_renders_nothing() {
    let mut stage = Stage::new(21, 15);
    let nodes = vec![(0, 0), (i64::MAX, 0), (0, 2 * FP)];
    let path = Path::new(nodes, true);
    path.render(
        &mut stage,
        Style::new(Some(Color::red()), Some(Color::white())),
    );
    for y in 0..15 {
        for x in 0..21 {
            assert_eq!(stage.get_pixel(x, y), Some([0, 0, 0, 0]));
        }
    }
}

#[test]
fn make_fill_pxl_fills_between_sorted_crossings() {
    let mut stage = Stage::new(21, 15);
    let nodes_px: Vec<(i32, i32)> = vec![(8, 5), (12, 5), (12, 9), (8, 9)];
    Path::make_fill_pxl(&nodes_px, &mut stage, Color::green());
    for y in 0..15 {
        for x in 0..21 {
            let expected = if (9..=11).contains(&x) && (5..=8).contains(&y) {
                [0, 255, 0, 255]
            } else {
                [0, 0, 0, 0]
            };
            assert_eq!(stage.get_pixel(x, y), Some(expected), "pixel ({}, {})", x, y);
        }
    }
}

#[test]
fn make_fill_pxl_needs_three_nodes_and_vertical_extent() {
    let mut stage = Stage::new(10, 10);
    Path::make_fill_pxl(&vec![(1, 1), (8, 8)], &mut stage, Color::red());
    Path::make_fill_pxl(&vec![(1, 4), (5, 4), (8, 4)], &mut stage, Color::red());
    for y in 0..10 {
        for x in 0..10 {
            assert_eq!(stage.get_pixel(x, y), Some([0, 0, 0, 0]));
        }
    }
}

#[test]
fn make_stroke_pxl_thin_outlines_the_polygon() {
    let mut stage = Stage::new(21, 15);
    let nodes_px: Vec<(i32, i32)> = vec![(8, 5), (12, 5), (12, 9), (8, 9)];
    Path::make_stroke_pxl(&nodes_px, true, 65536, &mut stage, Color::white());
    // the four axis-aligned edges trace the rectangle's boundary
    for x in 8..=12 {
        assert_eq!(stage.get_pixel(x, 5), Some([255, 255, 255, 255]));
        assert_eq!(stage.get_pixel(x, 9), Some([255, 255, 255, 255]));
    }
    for y in 5..=9 {
        assert_eq!(stage.get_pixel(8, y), Some([255, 255, 255, 255]));
        assert_eq!(stage.get_pixel(12, y), Some([255, 255, 255, 255]));
    }
    // the interior stays untouched
    for y in 6..=8 {
        for x in 9..=11 {
            assert_eq!(stage.get_pixel(x, y), Some([0, 0, 0, 0]));
        }
    }
}

#[test]
fn fill_then_stroke_keeps_the_boundary_for_the_stroke() {
    let mut stage = Stage::new(21, 15);
    let nodes = vec![
        (-2 * FP, 2 * FP),
        (2 * FP, 2 * FP),
        (2 * FP, -2 * FP),
        (-2 * FP, -2 * FP),
    ];
    let path = Path::new(nodes, true);
    path.render(
        &mut stage,
        Style::new(Some(Color::red()), Some(Color::white())),
    );
    // boundary pixels are white, the strict interior red
    assert_eq!(stage.get_pixel(8, 5), Some([255, 255, 255, 255]));
    assert_eq!(stage.get_pixel(12, 9), Some([255, 255, 255, 255]));
    assert_eq!(stage.get_pixel(10, 5), Some([255, 255, 255, 255]));
    assert_eq!(stage.get_pixel(10, 7), Some([255, 0, 0, 255]));
    assert_eq!(stage.get_pixel(9, 6), Some([255, 0, 0, 255]));
}
