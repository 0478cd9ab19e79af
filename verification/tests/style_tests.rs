use wave::Color;
use wave::Fill;
use wave::Opacity;
use wave::Stroke;
use wave::Style;

const FP_ONE: u64 = 65536;

#[test]
fn color_constructors_hold_their_channels() {
    assert_eq!(Color::transparent().rgba(), [0, 0, 0, 0]);
    assert_eq!(Color::black().rgba(), [0, 0, 0, 255]);
    assert_eq!(Color::white().rgba(), [255, 255, 255, 255]);
    assert_eq!(Color::red().rgba(), [255, 0, 0, 255]);
    assert_eq!(Color::green().rgba(), [0, 255, 0, 255]);
    assert_eq!(Color::blue().rgba(), [0, 0, 255, 255]);
}

#[test]
fn color_new_round_trips_through_rgba() {
    let c = Color::new([11, 22, 33, 44]);
    assert_eq!(c.rgba(), [11, 22, 33, 44]);
}

#[test]
fn with_alpha_replaces_only_the_intrinsic_alpha() {
    let c = Color::new([11, 22, 33, 44]).with_alpha(Opacity::new(200));
    assert_eq!(c.rgba(), [11, 22, 33, 200]);
}

#[test]
fn opacity_extremes_and_as_u8() {
    assert_eq!(Opacity::transparent().as_u8(), 0);
    assert_eq!(Opacity::opaque().as_u8(), 255);
    assert_eq!(Opacity::new(77).as_u8(), 77);
}

#[test]
fn effective_alpha_is_product_rounded_to_byte() {
    // (200 * 128 + 127) / 255 == 100
    let f = Fill::new(Color::new([10, 20, 30, 200]), Opacity::new(128));
    assert_eq!(f.rgba().rgba(), [10, 20, 30, 100]);
    // (255 * 255 + 127) / 255 == 255: opaque leaves alpha unchanged
    let s = Stroke::new(Color::white(), Opacity::opaque(), FP_ONE);
    assert_eq!(s.rgba().rgba(), [255, 255, 255, 255]);
    // zero multiplier blanks the alpha
    let z = Fill::new(Color::white(), Opacity::transparent());
    assert_eq!(z.rgba().rgba(), [255, 255, 255, 0]);
    // (128 * 128 + 127) / 255 == 64
    let h = Fill::new(Color::new([0, 0, 0, 128]), Opacity::new(128));
    assert_eq!(h.rgba().rgba(), [0, 0, 0, 64]);
}

#[test]
fn style_new_defaults_to_opaque_and_one_pixel_stroke() {
    let style = Style::new(Some(Color::red()), Some(Color::white()));
    let fill = style.fill.unwrap();
    assert_eq!(fill.color.rgba(), [255, 0, 0, 255]);
    assert_eq!(fill.opacity.as_u8(), 255);
    let stroke = style.stroke.unwrap();
    assert_eq!(stroke.color.rgba(), [255, 255, 255, 255]);
    assert_eq!(stroke.opacity.as_u8(), 255);
    assert_eq!(stroke.width, FP_ONE);
}

#[test]
fn make_fill_and_make_stroke_set_one_side_only() {
    let f = Style::make_fill(Color::green());
    assert!(f.fill.is_some());
    assert!(f.stroke.is_none());
    assert!(f.fill_or_stroke_exists());
    let s = Style::make_stroke(Color::blue());
    assert!(s.fill.is_none());
    assert!(s.stroke.is_some());
    assert!(s.fill_or_stroke_exists());
    let none = Style::new(None, None);
    assert!(!none.fill_or_stroke_exists());
}

#[test]
fn style_setters_update_their_side() {
    let mut style = Style::new(Some(Color::red()), Some(Color::white()));
    style.set_fill_opacity(Opacity::new(10));
    style.set_stroke_opacity(Opacity::new(20));
    style.set_stroke_width(5 * FP_ONE);
    assert_eq!(style.fill.unwrap().opacity.as_u8(), 10);
    assert_eq!(style.stroke.unwrap().opacity.as_u8(), 20);
    assert_eq!(style.stroke.unwrap().width, 5 * FP_ONE);
    style.set_fill(Color::blue());
    style.set_stroke(Color::green());
    assert_eq!(style.fill.unwrap().color.rgba(), [0, 0, 255, 255]);
    assert_eq!(style.fill.unwrap().opacity.as_u8(), 255);
    assert_eq!(style.stroke.unwrap().width, FP_ONE);
}

#[test]
fn setters_on_absent_sides_do_nothing() {
    let mut style = Style::new(None, None);
    style.set_fill_opacity(Opacity::new(10));
    style.set_stroke_opacity(Opacity::new(20));
    style.set_stroke_width(3 * FP_ONE);
    assert!(style.fill.is_none());
    assert!(style.stroke.is_none());
}
