use oxo_tui::theme::{parse_color, Color, Style, Theme, ThemeConfig};

#[test]
fn parses_named_colors_in_any_case() {
    assert_eq!(parse_color("red"), Some(Color::Red));
    assert_eq!(parse_color("  Dark-Gray "), Some(Color::DarkGray));
    assert_eq!(parse_color("LIGHTCYAN"), Some(Color::LightCyan));
    assert_eq!(parse_color("grey"), Some(Color::Gray));
    assert_eq!(parse_color("reset"), Some(Color::Reset));
    assert_eq!(parse_color("purple"), None);
}

#[test]
fn parses_hex_colors() {
    assert_eq!(parse_color("#ff5500"), Some(Color::Rgb(0xff, 0x55, 0x00)));
    assert_eq!(parse_color("#f50"), Some(Color::Rgb(0xff, 0x55, 0x00)));
    assert_eq!(parse_color("#ABCDEF"), Some(Color::Rgb(0xab, 0xcd, 0xef)));
    assert_eq!(parse_color("#12345"), None);
    assert_eq!(parse_color("#gg0000"), None);
}

#[test]
fn hex_channel_accepts_a_plus_sign() {
    assert_eq!(parse_color("#+f0000"), Some(Color::Rgb(0x0f, 0x00, 0x00)));
}

#[test]
fn parses_indexed_colors() {
    assert_eq!(parse_color("color(123)"), Some(Color::Indexed(123)));
    assert_eq!(parse_color("color( 7 )"), Some(Color::Indexed(7)));
    assert_eq!(parse_color("color(256)"), None);
    assert_eq!(parse_color("color()"), None);
}

#[test]
fn hex_bodies_that_are_not_digits_give_none() {
    assert_eq!(parse_color("#é1"), None);
    assert_eq!(parse_color("#1é234"), None);
    assert_eq!(parse_color("#abc"), Some(Color::Rgb(0xaa, 0xbb, 0xcc)));
    let mut cfg = ThemeConfig::default();
    cfg.bg = Some("#1é234".to_string());
    assert_eq!(Theme::from_config(&cfg).bg, Theme::default().bg);
}

#[test]
fn from_config_applies_preset_and_overrides() {
    let mut cfg = ThemeConfig::default();
    cfg.preset = "Dracula".to_string();
    cfg.accent = Some("#50fa7b".to_string());
    cfg.error = Some("not a color".to_string());
    let t = Theme::from_config(&cfg);
    let d = Theme::dracula();
    assert_eq!(t.accent, Color::Rgb(0x50, 0xfa, 0x7b));
    assert_eq!(t.border_focused, Color::Rgb(0x50, 0xfa, 0x7b));
    assert_eq!(t.sparkline, Color::Rgb(0x50, 0xfa, 0x7b));
    assert_eq!(t.error, d.error);
    assert_eq!(t.bg, d.bg);
}

#[test]
fn unknown_preset_falls_back_to_default() {
    let mut cfg = ThemeConfig::default();
    cfg.preset = "nonexistent".to_string();
    assert_eq!(Theme::from_config(&cfg), Theme::default());
    cfg.preset = "solarized".to_string();
    assert_eq!(Theme::from_config(&cfg), Theme::solarized_dark());
}

#[test]
fn level_colors_and_styles() {
    let t = Theme::default();
    assert_eq!(t.log_level_color("ERROR"), Some(Color::Red));
    assert_eq!(t.log_level_color("warning"), Some(Color::Yellow));
    assert_eq!(t.log_level_color("trace"), Some(Color::DarkGray));
    assert_eq!(t.log_level_color("verbose"), None);
    let s = t.log_level_style("Fatal");
    assert_eq!(s, Style { fg: Some(Color::Red), bg: None, bold: true });
    assert_eq!(t.log_level_style("nope"), Style::fg(Color::White));
    assert_eq!(t.base(), Style { fg: Some(Color::White), bg: Some(Color::Reset), bold: false });
}
