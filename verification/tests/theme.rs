use gpur::order::Real;
use gpur::theme::{detect_color_mode, gradient, paint, rgb_to_16, rgb_to_256, ColorMode, Paint, Palette, UiTheme};

#[test]
fn quantizers_hit_expected_ranges() {
    assert_eq!(rgb_to_256(0, 0, 0), 16);
    assert_eq!(rgb_to_256(255, 255, 255), 231);
    assert_eq!(rgb_to_256(128, 128, 128), 232 + (128 - 8) / 10);
    assert_eq!(rgb_to_256(255, 0, 0), 16 + 36 * 5);
    assert_eq!(rgb_to_16(255, 60, 60), 9);
    assert_eq!(rgb_to_16(60, 120, 60), 2);
}

/// A ramp's color at `frac` of its length.
fn gradient_at(stops: &[(u8, u8, u8)], frac: f64, mode: ColorMode) -> Paint {
    let pos = frac.clamp(0.0, 1.0) * stops.len().saturating_sub(1) as f64;
    let mix = |i: usize, x: u8, y: u8| {
        (x as f64 + (y as f64 - x as f64) * (pos - i as f64)).round() as u8
    };
    gradient(stops, pos.floor() as usize, mix, mode)
}

#[test]
fn mono_paints_reset() {
    assert_eq!(paint(ColorMode::Mono, (255, 0, 0)), Paint::Reset);
    assert_eq!(
        gradient_at(&[(0, 0, 0), (255, 255, 255)], 0.5, ColorMode::Mono),
        Paint::Reset
    );
}

#[test]
fn gradient_survives_degenerate_ramps() {
    for frac in [0.0, 0.5, 1.0] {
        assert_eq!(
            gradient_at(&[(1, 2, 3)], frac, ColorMode::Truecolor),
            Paint::Rgb(1, 2, 3)
        );
    }
    assert_eq!(
        gradient_at(&[], 0.5, ColorMode::Truecolor),
        Paint::Rgb(0, 0, 0)
    );
}

#[test]
fn gradient_interpolates_endpoints_and_midpoint() {
    let stops = [(0, 0, 0), (100, 100, 100), (200, 200, 200)];
    assert_eq!(
        gradient_at(&stops, 0.0, ColorMode::Truecolor),
        Paint::Rgb(0, 0, 0)
    );
    assert_eq!(
        gradient_at(&stops, 0.5, ColorMode::Truecolor),
        Paint::Rgb(100, 100, 100)
    );
    assert_eq!(
        gradient_at(&stops, 1.0, ColorMode::Truecolor),
        Paint::Rgb(200, 200, 200)
    );
}

#[test]
fn the_environment_chooses_the_color_mode() {
    assert_eq!(detect_color_mode(true, "xterm-256color", "truecolor"), ColorMode::Mono);
    assert_eq!(detect_color_mode(false, "xterm", "truecolor"), ColorMode::Truecolor);
    assert_eq!(detect_color_mode(false, "xterm-256color", ""), ColorMode::Ansi256);
    assert_eq!(detect_color_mode(false, "xterm", ""), ColorMode::Ansi16);
}

#[test]
fn a_theme_without_colors_is_painted_in_its_mode() {
    let bare = Palette {
        foreground: None,
        background: None,
        entries: Vec::new(),
    };
    let mono = UiTheme::from_theme(&bare, ColorMode::Mono);
    assert_eq!(mono.fg, Paint::Reset);
    let full = UiTheme::from_theme(
        &Palette {
            foreground: Some((1, 2, 3)),
            ..bare
        },
        ColorMode::Truecolor,
    );
    assert_eq!(full.fg, Paint::Rgb(1, 2, 3));
    let at = |c: f64| full.temp_style(Real { bits: c.to_bits() });
    assert_eq!(at(20.0), full.temp_ok);
    assert_ne!(at(20.0), at(99.0));
    assert_eq!(at(99.0), full.temp_crit);
}

#[test]
fn the_built_in_theme_is_what_an_empty_palette_falls_back_to() {
    let bare = Palette { foreground: None, background: None, entries: Vec::new() };
    for mode in [ColorMode::Truecolor, ColorMode::Ansi256, ColorMode::Ansi16, ColorMode::Mono] {
        let own = UiTheme::built_in(mode);
        assert_eq!(format!("{own:?}"), format!("{:?}", UiTheme::from_theme(&bare, mode)));
    }
    let own = UiTheme::built_in(ColorMode::Truecolor);
    assert_eq!(own.fg, Paint::Rgb(0xcd, 0xd6, 0xf4));
    assert_eq!(own.bg_rgb, (0x1e, 0x1e, 0x2e));
    assert_eq!(own.accent, Paint::Rgb(0xcb, 0xa6, 0xf7));
    assert_eq!(own.util_stops[2], (0xf3, 0x8b, 0xa8));
}
