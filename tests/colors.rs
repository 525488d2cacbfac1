use polars_styler::colors::{Color, ColorError};
use polars_styler::fixed::Fixed;
use polars_styler::gradient::{ColorBreakPoint, ColorMap, Gradient};

fn fixed_of(x: f64) -> Fixed {
    Fixed::from_units((x * 1e9).round() as i64)
}

#[test]
fn test_color_csv() {
    let c = Color::new(110, 50, 0);
    assert_eq!(c.to_csv(), "110, 50, 0");
}

#[test]
fn test_color_hex() {
    let c = Color::new(110, 50, 0);
    assert_eq!(c.to_hex(), "#6e3200");
}

#[test]
fn test_interpolate_u8() {
    let g = Gradient::new(Color::new(0, 0, 0), Color::new(10, 10, 10));
    assert_eq!(g.interpolate(fixed_of(0.0)).unwrap().r, 0);
    assert_eq!(g.interpolate(fixed_of(0.5)).unwrap().r, 5);
    assert_eq!(g.interpolate(fixed_of(1.0)).unwrap().r, 10);
}

#[test]
fn test_from_hex() {
    assert_eq!(Color::from_hex("#6e3200"), Ok(Color::new(110, 50, 0)));
}

#[test]
fn test_from_rgb() {
    assert_eq!(
        Color::from_rgb("rgb(110, 50, 0)"),
        Ok(Color::new(110, 50, 0))
    );
}

#[test]
fn test_from_rgb_fail() {
    assert!(Color::from_rgb("110, 50, 0").is_err());
    assert!(Color::from_rgb("(110, 50, 0)").is_err());
    assert!(Color::from_rgb("rgb(110, 110, 50, 0)").is_err());
    assert!(Color::from_rgb("#6e3200").is_err());
}

#[test]
fn test_interpolate_color() {
    let gradient = Gradient::new(Color::new(0, 0, 0), Color::new(10, 10, 10));
    let color = gradient.interpolate(fixed_of(0.5)).unwrap();
    let expected = Color::new(5, 5, 5);
    assert_eq!(color, expected);
}

#[test]
fn test_interpolate_color_start() {
    let start = Color::new(0, 0, 0);
    let end = Color::new(100, 255, 0);
    let gradient = Gradient::new(start.clone(), end.clone());

    assert_eq!(gradient.interpolate(fixed_of(0.0)), Ok(start));
    assert_eq!(gradient.interpolate(fixed_of(1.0)), Ok(end));
}

#[test]
fn hex_round_trip_on_several_colours() {
    for (r, g, b) in [(0, 0, 0), (255, 255, 255), (1, 128, 254), (16, 15, 160)] {
        let c = Color::new(r, g, b);
        assert_eq!(Color::from_hex(&c.to_hex()), Ok(c));
    }
}

#[test]
fn from_hex_accepts_upper_case_and_rejects_bad_shapes() {
    assert_eq!(Color::from_hex("#FFa0B1"), Ok(Color::new(255, 160, 177)));
    assert_eq!(Color::from_hex("6e32000"), Err(ColorError::Format));
    assert_eq!(Color::from_hex("#6e320"), Err(ColorError::Format));
    assert_eq!(Color::from_hex("#6e32g0"), Err(ColorError::Format));
    assert_eq!(Color::from_hex(""), Err(ColorError::Format));
}

#[test]
fn from_rgb_limits_and_leading_zeros() {
    assert_eq!(Color::from_rgb("rgb(255, 0, 007)"), Ok(Color::new(255, 0, 7)));
    assert_eq!(Color::from_rgb("rgb(256, 0, 0)"), Err(ColorError::Format));
    assert_eq!(Color::from_rgb("rgb(1,2,3)"), Err(ColorError::Format));
    assert_eq!(Color::from_rgb("rgb(1, 2, 3) "), Err(ColorError::Format));
    assert_eq!(Color::from_rgb("rgb(, 2, 3)"), Err(ColorError::Format));
}

#[test]
fn parse_tries_every_form() {
    assert_eq!(Color::parse("#6e3200"), Ok(Color::new(110, 50, 0)));
    assert_eq!(Color::parse("rgb(110, 50, 0)"), Ok(Color::new(110, 50, 0)));
    assert_eq!(Color::parse("red"), Ok(Color::new(255, 0, 0)));
    assert_eq!(Color::parse("green"), Ok(Color::new(0, 255, 0)));
    assert_eq!(Color::parse("blue"), Ok(Color::new(0, 0, 255)));
    assert_eq!(Color::parse("yellow"), Ok(Color::new(255, 255, 0)));
    assert_eq!(Color::parse("cyan"), Ok(Color::new(0, 255, 255)));
    assert_eq!(Color::parse("magenta"), Ok(Color::new(255, 0, 255)));
    assert_eq!(Color::parse("black"), Ok(Color::new(0, 0, 0)));
    assert_eq!(Color::parse("white"), Ok(Color::new(255, 255, 255)));
    assert_eq!(Color::parse("Red"), Err(ColorError::Format));
    assert_eq!(Color::parse("purple"), Err(ColorError::Format));
    assert_eq!(Color::parse("110, 50, 0"), Err(ColorError::Format));
}

#[test]
fn rgb_text_parses_back() {
    let c = Color::new(7, 200, 42);
    assert_eq!(c.to_rgb(), "rgb(7, 200, 42)");
    assert_eq!(Color::parse(&c.to_rgb()), Ok(c));
}

#[test]
fn rgba_writes_the_opacity_exactly() {
    let c = Color::new(255, 0, 0);
    assert_eq!(c.to_rgba(fixed_of(0.0)), "rgba(255, 0, 0, 0)");
    assert_eq!(c.to_rgba(fixed_of(0.5)), "rgba(255, 0, 0, 0.5)");
    assert_eq!(c.to_rgba(fixed_of(1.0)), "rgba(255, 0, 0, 1)");
    assert_eq!(c.to_rgba(fixed_of(0.125)), "rgba(255, 0, 0, 0.125)");
}

#[test]
fn interpolate_refuses_positions_outside_unit_range() {
    let g = Gradient::new(Color::new(0, 0, 0), Color::new(10, 10, 10));
    assert_eq!(g.interpolate(fixed_of(-0.1)), Err(ColorError::Range));
    assert_eq!(g.interpolate(fixed_of(1.5)), Err(ColorError::Range));
}

#[test]
fn interpolate_rounds_half_up() {
    let g = Gradient::new(Color::new(0, 0, 0), Color::new(1, 3, 255));
    assert_eq!(g.interpolate(fixed_of(0.5)), Ok(Color::new(1, 2, 128)));
}

#[test]
fn color_map_clamps_and_interpolates() {
    let m = ColorMap::red_scale();
    assert_eq!(m.get(fixed_of(-1.0)), Ok(Color::new(255, 255, 255)));
    assert_eq!(m.get(fixed_of(0.0)), Ok(Color::new(255, 255, 255)));
    assert_eq!(m.get(fixed_of(0.5)), Ok(Color::new(255, 128, 128)));
    assert_eq!(m.get(fixed_of(1.0)), Ok(Color::new(255, 0, 0)));
    assert_eq!(m.get(fixed_of(7.0)), Ok(Color::new(255, 0, 0)));
}

#[test]
fn color_map_uses_every_consecutive_pair() {
    let m = ColorMap::from_palette(vec![
        Color::new(0, 0, 0),
        Color::new(100, 0, 0),
        Color::new(100, 200, 0),
    ]);
    assert_eq!(m.get(fixed_of(0.25)), Ok(Color::new(50, 0, 0)));
    assert_eq!(m.get(fixed_of(0.5)), Ok(Color::new(100, 0, 0)));
    assert_eq!(m.get(fixed_of(0.75)), Ok(Color::new(100, 100, 0)));
}

#[test]
fn color_map_is_monotone_within_a_bracket() {
    let m = ColorMap::new(vec![
        ColorBreakPoint::new(fixed_of(0.0), Color::new(10, 200, 0)),
        ColorBreakPoint::new(fixed_of(10.0), Color::new(250, 20, 0)),
    ]);
    let mut last = m.get(fixed_of(0.0)).unwrap();
    for k in 1..100 {
        let c = m.get(fixed_of(k as f64 / 10.0)).unwrap();
        assert!(last.r <= c.r && c.r <= 250 && c.r >= 10);
        assert!(last.g >= c.g && c.g >= 20 && c.g <= 200);
        last = c;
    }
}

#[test]
fn breakpoints_compare_by_value_only() {
    let a = ColorBreakPoint::new(fixed_of(0.5), Color::new(1, 2, 3));
    let b = ColorBreakPoint::new(fixed_of(0.5), Color::new(9, 9, 9));
    let c = ColorBreakPoint::new(fixed_of(0.6), Color::new(1, 2, 3));
    assert!(a == b);
    assert!(a != c);
    assert!(a < c && c > b);
    assert!(a <= b && a >= b);
}
