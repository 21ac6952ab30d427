//! Color theme and styling: the palette presets, user overrides from the
//! configuration, and the colors that log levels are drawn in.

use vstd::prelude::*;
use crate::text::{byte_len, char_to_byte_offset, chars_of, decimal_u8, has_prefix, is_char_boundary,
    is_char_offset, lowercase, parse_decimal_u8, slice_chars, starts_with_chars, str_eq,
    string_from_chars, to_lowercase, trim, trim_chars};

verus! {

/// A terminal color.
#[derive(Debug, Clone, Copy, PartialEq, Eq, Structural)]
pub enum Color {
    /// The terminal's default color.
    Reset,
    /// Black.
    Black,
    /// Red.
    Red,
    /// Green.
    Green,
    /// Yellow.
    Yellow,
    /// Blue.
    Blue,
    /// Magenta.
    Magenta,
    /// Cyan.
    Cyan,
    /// Gray.
    Gray,
    /// Dark gray.
    DarkGray,
    /// Light red.
    LightRed,
    /// Light green.
    LightGreen,
    /// Light yellow.
    LightYellow,
    /// Light blue.
    LightBlue,
    /// Light magenta.
    LightMagenta,
    /// Light cyan.
    LightCyan,
    /// White.
    White,
    /// A 24-bit color.
    Rgb(u8, u8, u8),
    /// An entry of the 256-color palette.
    Indexed(u8),
}

/// How a piece of text is drawn: foreground, background and emphasis.
#[derive(Debug, Clone, Copy, PartialEq, Eq, Structural)]
pub struct Style {
    /// Foreground color, if set.
    pub fg: Option<Color>,
    /// Background color, if set.
    pub bg: Option<Color>,
    /// Bold text.
    pub bold: bool,
}

impl Style {
    /// A style with only a foreground color.
    pub open spec fn spec_fg(c: Color) -> Style {
        Style { fg: Some(c), bg: None, bold: false }
    }

    /// A style with only a foreground color.
    pub fn fg(c: Color) -> (s: Style)
        ensures
            s == Self::spec_fg(c),
    {
        Style { fg: Some(c), bg: None, bold: false }
    }
}

/// The color palette of the UI.
#[derive(Debug, Clone, Copy, PartialEq, Eq, Structural)]
pub struct Theme {
    /// Background.
    pub bg: Color,
    /// Foreground.
    pub fg: Color,
    /// Dimmed foreground.
    pub fg_dim: Color,
    /// Accent (selection, titles).
    pub accent: Color,
    /// Error level.
    pub error: Color,
    /// Warning level.
    pub warn: Color,
    /// Info level.
    pub info: Color,
    /// Debug level.
    pub debug: Color,
    /// Border of the focused component.
    pub border_focused: Color,
    /// Border of the other components.
    pub border_unfocused: Color,
    /// Status bar background.
    pub status_bg: Color,
    /// Status bar foreground.
    pub status_fg: Color,
    /// Search match foreground.
    pub search_match: Color,
    /// Sparkline bars.
    pub sparkline: Color,
}

impl Default for Theme {
    fn default() -> (t: Self)
        ensures
            t == spec_default_theme(),
    {
        Theme {
            bg: Color::Reset,
            fg: Color::White,
            fg_dim: Color::DarkGray,
            accent: Color::Cyan,
            error: Color::Red,
            warn: Color::Yellow,
            info: Color::Green,
            debug: Color::Blue,
            border_focused: Color::Cyan,
            border_unfocused: Color::DarkGray,
            status_bg: Color::DarkGray,
            status_fg: Color::White,
            search_match: Color::Black,
            sparkline: Color::Cyan,
        }
    }
}

/// The default palette (256-color friendly, for SSH and tmux).
pub open spec fn spec_default_theme() -> Theme {
    Theme {
        bg: Color::Reset,
        fg: Color::White,
        fg_dim: Color::DarkGray,
        accent: Color::Cyan,
        error: Color::Red,
        warn: Color::Yellow,
        info: Color::Green,
        debug: Color::Blue,
        border_focused: Color::Cyan,
        border_unfocused: Color::DarkGray,
        status_bg: Color::DarkGray,
        status_fg: Color::White,
        search_match: Color::Black,
        sparkline: Color::Cyan,
    }
}

/// The Solarized Dark palette.
pub open spec fn spec_solarized_dark() -> Theme {
    Theme {
        bg: Color::Rgb(0x00, 0x2b, 0x36),
        fg: Color::Rgb(0x83, 0x94, 0x96),
        fg_dim: Color::Rgb(0x58, 0x6e, 0x75),
        accent: Color::Rgb(0x26, 0x8b, 0xd2),
        error: Color::Rgb(0xdc, 0x32, 0x2f),
        warn: Color::Rgb(0xb5, 0x89, 0x00),
        info: Color::Rgb(0x85, 0x99, 0x00),
        debug: Color::Rgb(0x2a, 0xa1, 0x98),
        border_focused: Color::Rgb(0x26, 0x8b, 0xd2),
        border_unfocused: Color::Rgb(0x58, 0x6e, 0x75),
        status_bg: Color::Rgb(0x07, 0x36, 0x42),
        status_fg: Color::Rgb(0x93, 0xa1, 0xa1),
        search_match: Color::Rgb(0x00, 0x2b, 0x36),
        sparkline: Color::Rgb(0x26, 0x8b, 0xd2),
    }
}

/// The Dracula palette.
pub open spec fn spec_dracula() -> Theme {
    Theme {
        bg: Color::Rgb(0x28, 0x2a, 0x36),
        fg: Color::Rgb(0xf8, 0xf8, 0xf2),
        fg_dim: Color::Rgb(0x62, 0x72, 0xa4),
        accent: Color::Rgb(0xbd, 0x93, 0xf9),
        error: Color::Rgb(0xff, 0x55, 0x55),
        warn: Color::Rgb(0xff, 0xb8, 0x6c),
        info: Color::Rgb(0x50, 0xfa, 0x7b),
        debug: Color::Rgb(0x8b, 0xe9, 0xfd),
        border_focused: Color::Rgb(0xbd, 0x93, 0xf9),
        border_unfocused: Color::Rgb(0x62, 0x72, 0xa4),
        status_bg: Color::Rgb(0x44, 0x47, 0x5a),
        status_fg: Color::Rgb(0xf8, 0xf8, 0xf2),
        search_match: Color::Rgb(0x28, 0x2a, 0x36),
        sparkline: Color::Rgb(0xbd, 0x93, 0xf9),
    }
}

/// The Monokai palette.
pub open spec fn spec_monokai() -> Theme {
    Theme {
        bg: Color::Rgb(0x27, 0x28, 0x22),
        fg: Color::Rgb(0xf8, 0xf8, 0xf2),
        fg_dim: Color::Rgb(0x75, 0x71, 0x5e),
        accent: Color::Rgb(0xa6, 0xe2, 0x2e),
        error: Color::Rgb(0xf9, 0x26, 0x72),
        warn: Color::Rgb(0xe6, 0xdb, 0x74),
        info: Color::Rgb(0xa6, 0xe2, 0x2e),
        debug: Color::Rgb(0x66, 0xd9, 0xef),
        border_focused: Color::Rgb(0xa6, 0xe2, 0x2e),
        border_unfocused: Color::Rgb(0x75, 0x71, 0x5e),
        status_bg: Color::Rgb(0x3e, 0x3d, 0x32),
        status_fg: Color::Rgb(0xf8, 0xf8, 0xf2),
        search_match: Color::Rgb(0x27, 0x28, 0x22),
        sparkline: Color::Rgb(0xa6, 0xe2, 0x2e),
    }
}

/// The light palette: dark text on a light background.
pub open spec fn spec_light() -> Theme {
    Theme {
        bg: Color::Rgb(0xfa, 0xfa, 0xfa),
        fg: Color::Rgb(0x38, 0x38, 0x38),
        fg_dim: Color::Rgb(0xa0, 0xa0, 0xa0),
        accent: Color::Rgb(0x00, 0x5f, 0xaf),
        error: Color::Rgb(0xd7, 0x00, 0x00),
        warn: Color::Rgb(0xaf, 0x87, 0x00),
        info: Color::Rgb(0x00, 0x87, 0x00),
        debug: Color::Rgb(0x00, 0x5f, 0x87),
        border_focused: Color::Rgb(0x00, 0x5f, 0xaf),
        border_unfocused: Color::Rgb(0xc0, 0xc0, 0xc0),
        status_bg: Color::Rgb(0xe0, 0xe0, 0xe0),
        status_fg: Color::Rgb(0x38, 0x38, 0x38),
        search_match: Color::Rgb(0xfa, 0xfa, 0xfa),
        sparkline: Color::Rgb(0x00, 0x5f, 0xaf),
    }
}

/// Log level class of a (lowercased) level name.
pub open spec fn level_is_error(l: Seq<char>) -> bool {
    l == "fatal"@ || l == "critical"@ || l == "error"@ || l == "err"@
}

/// Whether a (lowercased) level name is a warning.
pub open spec fn level_is_warn(l: Seq<char>) -> bool {
    l == "warn"@ || l == "warning"@
}

/// Whether a (lowercased) level name is fatal or critical.
pub open spec fn level_is_fatal(l: Seq<char>) -> bool {
    l == "fatal"@ || l == "critical"@
}

/// The color a level is drawn in, if it is a known level (case-insensitive).
pub open spec fn level_color(t: Theme, level: Seq<char>) -> Option<Color> {
    let l = lowercase(level);
    if level_is_error(l) {
        Some(t.error)
    } else if level_is_warn(l) {
        Some(t.warn)
    } else if l == "info"@ {
        Some(t.info)
    } else if l == "debug"@ || l == "trace"@ {
        Some(t.fg_dim)
    } else {
        None
    }
}

impl Theme {
    /// Solarized Dark palette.
    pub fn solarized_dark() -> (t: Self)
        ensures
            t == spec_solarized_dark(),
    {
        Theme {
            bg: Color::Rgb(0x00, 0x2b, 0x36),
            fg: Color::Rgb(0x83, 0x94, 0x96),
            fg_dim: Color::Rgb(0x58, 0x6e, 0x75),
            accent: Color::Rgb(0x26, 0x8b, 0xd2),
            error: Color::Rgb(0xdc, 0x32, 0x2f),
            warn: Color::Rgb(0xb5, 0x89, 0x00),
            info: Color::Rgb(0x85, 0x99, 0x00),
            debug: Color::Rgb(0x2a, 0xa1, 0x98),
            border_focused: Color::Rgb(0x26, 0x8b, 0xd2),
            border_unfocused: Color::Rgb(0x58, 0x6e, 0x75),
            status_bg: Color::Rgb(0x07, 0x36, 0x42),
            status_fg: Color::Rgb(0x93, 0xa1, 0xa1),
            search_match: Color::Rgb(0x00, 0x2b, 0x36),
            sparkline: Color::Rgb(0x26, 0x8b, 0xd2),
        }
    }

    /// Dracula palette.
    pub fn dracula() -> (t: Self)
        ensures
            t == spec_dracula(),
    {
        Theme {
            bg: Color::Rgb(0x28, 0x2a, 0x36),
            fg: Color::Rgb(0xf8, 0xf8, 0xf2),
            fg_dim: Color::Rgb(0x62, 0x72, 0xa4),
            accent: Color::Rgb(0xbd, 0x93, 0xf9),
            error: Color::Rgb(0xff, 0x55, 0x55),
            warn: Color::Rgb(0xff, 0xb8, 0x6c),
            info: Color::Rgb(0x50, 0xfa, 0x7b),
            debug: Color::Rgb(0x8b, 0xe9, 0xfd),
            border_focused: Color::Rgb(0xbd, 0x93, 0xf9),
            border_unfocused: Color::Rgb(0x62, 0x72, 0xa4),
            status_bg: Color::Rgb(0x44, 0x47, 0x5a),
            status_fg: Color::Rgb(0xf8, 0xf8, 0xf2),
            search_match: Color::Rgb(0x28, 0x2a, 0x36),
            sparkline: Color::Rgb(0xbd, 0x93, 0xf9),
        }
    }

    /// Monokai palette.
    pub fn monokai() -> (t: Self)
        ensures
            t == spec_monokai(),
    {
        Theme {
            bg: Color::Rgb(0x27, 0x28, 0x22),
            fg: Color::Rgb(0xf8, 0xf8, 0xf2),
            fg_dim: Color::Rgb(0x75, 0x71, 0x5e),
            accent: Color::Rgb(0xa6, 0xe2, 0x2e),
            error: Color::Rgb(0xf9, 0x26, 0x72),
            warn: Color::Rgb(0xe6, 0xdb, 0x74),
            info: Color::Rgb(0xa6, 0xe2, 0x2e),
            debug: Color::Rgb(0x66, 0xd9, 0xef),
            border_focused: Color::Rgb(0xa6, 0xe2, 0x2e),
            border_unfocused: Color::Rgb(0x75, 0x71, 0x5e),
            status_bg: Color::Rgb(0x3e, 0x3d, 0x32),
            status_fg: Color::Rgb(0xf8, 0xf8, 0xf2),
            search_match: Color::Rgb(0x27, 0x28, 0x22),
            sparkline: Color::Rgb(0xa6, 0xe2, 0x2e),
        }
    }

    /// Light palette.
    pub fn light() -> (t: Self)
        ensures
            t == spec_light(),
    {
        Theme {
            bg: Color::Rgb(0xfa, 0xfa, 0xfa),
            fg: Color::Rgb(0x38, 0x38, 0x38),
            fg_dim: Color::Rgb(0xa0, 0xa0, 0xa0),
            accent: Color::Rgb(0x00, 0x5f, 0xaf),
            error: Color::Rgb(0xd7, 0x00, 0x00),
            warn: Color::Rgb(0xaf, 0x87, 0x00),
            info: Color::Rgb(0x00, 0x87, 0x00),
            debug: Color::Rgb(0x00, 0x5f, 0x87),
            border_focused: Color::Rgb(0x00, 0x5f, 0xaf),
            border_unfocused: Color::Rgb(0xc0, 0xc0, 0xc0),
            status_bg: Color::Rgb(0xe0, 0xe0, 0xe0),
            status_fg: Color::Rgb(0x38, 0x38, 0x38),
            search_match: Color::Rgb(0xfa, 0xfa, 0xfa),
            sparkline: Color::Rgb(0x00, 0x5f, 0xaf),
        }
    }

    /// Dimmed text style.
    pub fn dimmed(&self) -> (s: Style)
        ensures
            s == Style::spec_fg(self.fg_dim),
    {
        Style::fg(self.fg_dim)
    }

    /// Style of the status bar.
    pub fn status_bar(&self) -> (s: Style)
        ensures
            s == (Style { fg: Some(self.status_fg), bg: Some(self.status_bg), bold: false }),
    {
        Style { fg: Some(self.status_fg), bg: Some(self.status_bg), bold: false }
    }

    /// Border style of the focused component.
    pub fn border_focused(&self) -> (s: Style)
        ensures
            s == Style::spec_fg(self.border_focused),
    {
        Style::fg(self.border_focused)
    }

    /// Border style of the other components.
    pub fn border_unfocused(&self) -> (s: Style)
        ensures
            s == Style::spec_fg(self.border_unfocused),
    {
        Style::fg(self.border_unfocused)
    }

    /// The color a log level is drawn in, if it is a known level.
    pub fn log_level_color(&self, level: &str) -> (c: Option<Color>)
        ensures
            c == level_color(*self, level@),
    {
        let l = to_lowercase(level);
        let s = l.as_str();
        if str_eq(s, "fatal") || str_eq(s, "critical") || str_eq(s, "error") || str_eq(s, "err") {
            Some(self.error)
        } else if str_eq(s, "warn") || str_eq(s, "warning") {
            Some(self.warn)
        } else if str_eq(s, "info") {
            Some(self.info)
        } else if str_eq(s, "debug") || str_eq(s, "trace") {
            Some(self.fg_dim)
        } else {
            None
        }
    }

    /// The style a log level is drawn in: its color (bold when fatal or
    /// critical), or the plain foreground for an unknown level.
    pub fn log_level_style(&self, level: &str) -> (s: Style)
        ensures
            s == (match level_color(*self, level@) {
                Some(c) => Style { fg: Some(c), bg: None, bold: level_is_fatal(lowercase(level@)) },
                None => Style::spec_fg(self.fg),
            }),
    {
        let c = self.log_level_color(level);
        let l = to_lowercase(level);
        let fatal = str_eq(l.as_str(), "fatal") || str_eq(l.as_str(), "critical");
        match c {
            Some(c) => Style { fg: Some(c), bg: None, bold: fatal },
            None => Style::fg(self.fg),
        }
    }

    /// The style of search matches: bold, on yellow.
    pub fn search_highlight(&self) -> (s: Style)
        ensures
            s == (Style { fg: Some(self.search_match), bg: Some(Color::Yellow), bold: true }),
    {
        Style { fg: Some(self.search_match), bg: Some(Color::Yellow), bold: true }
    }
}


/// The value of a hexadecimal digit, in either case.
pub open spec fn hex_digit(c: char) -> Option<u8> {
    let v = c as u32;
    if 48 <= v <= 57 {
        Some((v - 48) as u8)
    } else if 97 <= v <= 102 {
        Some((v - 87) as u8)
    } else if 65 <= v <= 70 {
        Some((v - 55) as u8)
    } else {
        None
    }
}

/// What `u8::from_str_radix(.., 16)` gives for the two characters `a b`:
/// two hexadecimal digits, or a `+` sign followed by one.
pub open spec fn hex_pair(a: char, b: char) -> Option<u8> {
    if a == '+' {
        hex_digit(b)
    } else {
        match (hex_digit(a), hex_digit(b)) {
            (Some(x), Some(y)) => Some((16 * x + y) as u8),
            _ => None,
        }
    }
}

/// An RGB color, when all three channels were read.
pub open spec fn rgb_of(r: Option<u8>, g: Option<u8>, b: Option<u8>) -> Option<Color> {
    match (r, g, b) {
        (Some(r), Some(g), Some(b)) => Some(Color::Rgb(r, g, b)),
        _ => None,
    }
}

/// The color written by the hex body `h` (`rgb` or `rrggbb`, no `#`).
pub open spec fn hex_color(h: Seq<char>) -> Option<Color> {
    if byte_len(h) == 3 && h.len() == 3 {
        rgb_of(hex_pair(h[0], h[0]), hex_pair(h[1], h[1]), hex_pair(h[2], h[2]))
    } else if byte_len(h) == 6 && h.len() == 6 {
        rgb_of(hex_pair(h[0], h[1]), hex_pair(h[2], h[3]), hex_pair(h[4], h[5]))
    } else {
        None
    }
}

/// The color called `n` (lowercase, words joined by `_`).
pub open spec fn named_color(n: Seq<char>) -> Option<Color> {
    if n == "black"@ {
        Some(Color::Black)
    } else if n == "red"@ {
        Some(Color::Red)
    } else if n == "green"@ {
        Some(Color::Green)
    } else if n == "yellow"@ {
        Some(Color::Yellow)
    } else if n == "blue"@ {
        Some(Color::Blue)
    } else if n == "magenta"@ {
        Some(Color::Magenta)
    } else if n == "cyan"@ {
        Some(Color::Cyan)
    } else if n == "gray"@ || n == "grey"@ {
        Some(Color::Gray)
    } else if n == "dark_gray"@ || n == "dark_grey"@ || n == "darkgray"@ || n == "darkgrey"@ {
        Some(Color::DarkGray)
    } else if n == "light_red"@ || n == "lightred"@ {
        Some(Color::LightRed)
    } else if n == "light_green"@ || n == "lightgreen"@ {
        Some(Color::LightGreen)
    } else if n == "light_yellow"@ || n == "lightyellow"@ {
        Some(Color::LightYellow)
    } else if n == "light_blue"@ || n == "lightblue"@ {
        Some(Color::LightBlue)
    } else if n == "light_magenta"@ || n == "lightmagenta"@ {
        Some(Color::LightMagenta)
    } else if n == "light_cyan"@ || n == "lightcyan"@ {
        Some(Color::LightCyan)
    } else if n == "white"@ {
        Some(Color::White)
    } else if n == "reset"@ {
        Some(Color::Reset)
    } else {
        None
    }
}

/// `s` with every `-` replaced by `_`.
pub open spec fn dashes_to_underscores(s: Seq<char>) -> Seq<char> {
    Seq::new(s.len(), |i: int| if s[i] == '-' { '_' } else { s[i] })
}

/// The color that the text `s` names: `#rgb` or `#rrggbb`, `color(N)` for
/// an entry of the 256-color palette, or a color name in any case (`-` and
/// `_` alike); surrounding white space is ignored.
pub open spec fn color_from_text(s: Seq<char>) -> Option<Color> {
    let t = trim(s);
    if t.len() > 0 && t[0] == '#' {
        hex_color(trim(t.drop_first()))
    } else if has_prefix(t, "color("@) && t.len() > "color("@.len() && t.last() == ')' {
        match decimal_u8(trim(t.subrange("color("@.len() as int, t.len() - 1))) {
            Some(i) => Some(Color::Indexed(i)),
            None => None,
        }
    } else {
        named_color(dashes_to_underscores(lowercase(t)))
    }
}

/// The value of a hexadecimal digit.
fn hex_digit_of(c: char) -> (d: Option<u8>)
    ensures
        d == hex_digit(c),
{
    let v = c as u32;
    if 48 <= v && v <= 57 {
        Some((v - 48) as u8)
    } else if 97 <= v && v <= 102 {
        Some((v - 87) as u8)
    } else if 65 <= v && v <= 70 {
        Some((v - 55) as u8)
    } else {
        None
    }
}

/// One channel of a hex color, read from two characters.
fn hex_pair_of(a: char, b: char) -> (r: Option<u8>)
    ensures
        r == hex_pair(a, b),
{
    if a == '+' {
        hex_digit_of(b)
    } else {
        match (hex_digit_of(a), hex_digit_of(b)) {
            (Some(x), Some(y)) => Some(16 * x + y),
            _ => None,
        }
    }
}

/// An RGB color from three channels.
fn rgb_from(r: Option<u8>, g: Option<u8>, b: Option<u8>) -> (c: Option<Color>)
    ensures
        c == rgb_of(r, g, b),
{
    match (r, g, b) {
        (Some(r), Some(g), Some(b)) => Some(Color::Rgb(r, g, b)),
        _ => None,
    }
}

/// Parses a hex color body (`rgb` or `rrggbb`, without the `#`).
fn parse_hex_color(hex: &Vec<char>) -> (c: Option<Color>)
    ensures
        c == hex_color(trim(hex@)),
{
    let h = trim_chars(hex);
    let hs = string_from_chars(&h);
    let n = char_to_byte_offset(hs.as_str(), h.len());
    proof {
        assert(h@.take(h@.len() as int) == h@);
    }
    if n == 3 && h.len() == 3 {
        rgb_from(hex_pair_of(h[0], h[0]), hex_pair_of(h[1], h[1]), hex_pair_of(h[2], h[2]))
    } else if n == 6 && h.len() == 6 {
        rgb_from(hex_pair_of(h[0], h[1]), hex_pair_of(h[2], h[3]), hex_pair_of(h[4], h[5]))
    } else {
        None
    }
}

/// The color called `n`, if it is a known name.
fn named_color_of(n: &str) -> (c: Option<Color>)
    ensures
        c == named_color(n@),
{
    if str_eq(n, "black") {
        Some(Color::Black)
    } else if str_eq(n, "red") {
        Some(Color::Red)
    } else if str_eq(n, "green") {
        Some(Color::Green)
    } else if str_eq(n, "yellow") {
        Some(Color::Yellow)
    } else if str_eq(n, "blue") {
        Some(Color::Blue)
    } else if str_eq(n, "magenta") {
        Some(Color::Magenta)
    } else if str_eq(n, "cyan") {
        Some(Color::Cyan)
    } else if str_eq(n, "gray") || str_eq(n, "grey") {
        Some(Color::Gray)
    } else if str_eq(n, "dark_gray") || str_eq(n, "dark_grey") || str_eq(n, "darkgray") || str_eq(
        n,
        "darkgrey",
    ) {
        Some(Color::DarkGray)
    } else if str_eq(n, "light_red") || str_eq(n, "lightred") {
        Some(Color::LightRed)
    } else if str_eq(n, "light_green") || str_eq(n, "lightgreen") {
        Some(Color::LightGreen)
    } else if str_eq(n, "light_yellow") || str_eq(n, "lightyellow") {
        Some(Color::LightYellow)
    } else if str_eq(n, "light_blue") || str_eq(n, "lightblue") {
        Some(Color::LightBlue)
    } else if str_eq(n, "light_magenta") || str_eq(n, "lightmagenta") {
        Some(Color::LightMagenta)
    } else if str_eq(n, "light_cyan") || str_eq(n, "lightcyan") {
        Some(Color::LightCyan)
    } else if str_eq(n, "white") {
        Some(Color::White)
    } else if str_eq(n, "reset") {
        Some(Color::Reset)
    } else {
        None
    }
}

/// Parses a color: `#rgb` or `#rrggbb`, `color(N)` for an entry of the
/// 256-color palette, or a color name such as `red` or `dark-gray` in any
/// case. `None` for anything else, including a `#` body that is not three
/// or six hexadecimal digits.
pub fn parse_color(s: &str) -> (c: Option<Color>)
    ensures
        c == color_from_text(s@),
{
    let v = chars_of(s);
    let t = trim_chars(&v);
    if t.len() > 0 && t[0] == '#' {
        let body = slice_chars(&t, 1, t.len());
        proof {
            assert(body@ == t@.drop_first());
        }
        return parse_hex_color(&body);
    }
    let prefix = chars_of("color(");
    if starts_with_chars(&t, &prefix) && t.len() > prefix.len() && t[t.len() - 1] == ')' {
        let inner = slice_chars(&t, prefix.len(), t.len() - 1);
        let inner = trim_chars(&inner);
        return match parse_decimal_u8(&inner) {
            Some(i) => Some(Color::Indexed(i)),
            None => None,
        };
    }
    let ts = string_from_chars(&t);
    let low = to_lowercase(ts.as_str());
    let lv = chars_of(low.as_str());
    let mut n: Vec<char> = Vec::new();
    let mut i: usize = 0;
    while i < lv.len()
        invariant
            i <= lv.len(),
            n@ == dashes_to_underscores(lv@).take(i as int),
        decreases lv.len() - i,
    {
        let c = if lv[i] == '-' { '_' } else { lv[i] };
        n.push(c);
        proof {
            assert(dashes_to_underscores(lv@).take(i + 1) == dashes_to_underscores(lv@).take(
                i as int,
            ).push(c));
        }
        i += 1;
    }
    proof {
        assert(dashes_to_underscores(lv@).take(lv@.len() as int) == dashes_to_underscores(lv@));
    }
    let ns = string_from_chars(&n);
    named_color_of(ns.as_str())
}


/// The `[theme]` section of the configuration: a preset name and optional
/// color overrides, each written as [`parse_color`] reads it.
#[derive(Debug, Clone, Default)]
pub struct ThemeConfig {
    /// Preset: `default`, `solarized_dark`, `dracula`, `monokai` or `light`.
    pub preset: String,
    /// Background override.
    pub bg: Option<String>,
    /// Foreground override.
    pub fg: Option<String>,
    /// Dimmed text override.
    pub fg_dim: Option<String>,
    /// Accent override; also colors the focused border and sparklines.
    pub accent: Option<String>,
    /// Error color override.
    pub error: Option<String>,
    /// Warning color override.
    pub warn: Option<String>,
    /// Info color override.
    pub info: Option<String>,
    /// Debug color override.
    pub debug: Option<String>,
}

/// The color an override asks for, if it is set and readable.
pub open spec fn override_color(o: Option<String>) -> Option<Color> {
    match o {
        Some(s) => color_from_text(s@),
        None => None,
    }
}

/// The preset palette called `name` (lowercase); the default palette for
/// an unknown name.
pub open spec fn preset_theme(name: Seq<char>) -> Theme {
    if name == "solarized_dark"@ || name == "solarized-dark"@ || name == "solarized"@ {
        spec_solarized_dark()
    } else if name == "dracula"@ {
        spec_dracula()
    } else if name == "monokai"@ {
        spec_monokai()
    } else if name == "light"@ {
        spec_light()
    } else {
        spec_default_theme()
    }
}

/// `o` when set, else `c`.
pub open spec fn or_keep(o: Option<Color>, c: Color) -> Color {
    match o {
        Some(x) => x,
        None => c,
    }
}

/// The palette a configuration describes: its preset (case-insensitive)
/// with every readable override applied; the accent also colors the
/// focused border and the sparklines.
pub open spec fn configured_theme(c: ThemeConfig) -> Theme {
    let base = preset_theme(lowercase(c.preset@));
    let accent = override_color(c.accent);
    Theme {
        bg: or_keep(override_color(c.bg), base.bg),
        fg: or_keep(override_color(c.fg), base.fg),
        fg_dim: or_keep(override_color(c.fg_dim), base.fg_dim),
        accent: or_keep(accent, base.accent),
        error: or_keep(override_color(c.error), base.error),
        warn: or_keep(override_color(c.warn), base.warn),
        info: or_keep(override_color(c.info), base.info),
        debug: or_keep(override_color(c.debug), base.debug),
        border_focused: or_keep(accent, base.border_focused),
        border_unfocused: base.border_unfocused,
        status_bg: base.status_bg,
        status_fg: base.status_fg,
        search_match: base.search_match,
        sparkline: or_keep(accent, base.sparkline),
    }
}

/// Reads one override.
fn read_override(o: &Option<String>) -> (c: Option<Color>)
    ensures
        c == override_color(*o),
{
    match o {
        Some(s) => parse_color(s.as_str()),
        None => None,
    }
}

impl Theme {
    /// The palette a configuration describes: the preset named by
    /// `config.preset` (the default palette for an unknown name), then each
    /// readable override.
    pub fn from_config(config: &ThemeConfig) -> (t: Theme)
        ensures
            t == configured_theme(*config),
    {
        let name = to_lowercase(config.preset.as_str());
        let n = name.as_str();
        let mut theme = if str_eq(n, "solarized_dark") || str_eq(n, "solarized-dark") || str_eq(
            n,
            "solarized",
        ) {
            Theme::solarized_dark()
        } else if str_eq(n, "dracula") {
            Theme::dracula()
        } else if str_eq(n, "monokai") {
            Theme::monokai()
        } else if str_eq(n, "light") {
            Theme::light()
        } else {
            Theme::default()
        };
        if let Some(c) = read_override(&config.bg) {
            theme.bg = c;
        }
        if let Some(c) = read_override(&config.fg) {
            theme.fg = c;
        }
        if let Some(c) = read_override(&config.fg_dim) {
            theme.fg_dim = c;
        }
        if let Some(c) = read_override(&config.accent) {
            theme.accent = c;
            theme.border_focused = c;
            theme.sparkline = c;
        }
        if let Some(c) = read_override(&config.error) {
            theme.error = c;
        }
        if let Some(c) = read_override(&config.warn) {
            theme.warn = c;
        }
        if let Some(c) = read_override(&config.info) {
            theme.info = c;
        }
        if let Some(c) = read_override(&config.debug) {
            theme.debug = c;
        }
        theme
    }

    /// Base style: foreground on background.
    pub fn base(&self) -> (s: Style)
        ensures
            s == (Style { fg: Some(self.fg), bg: Some(self.bg), bold: false }),
    {
        Style { fg: Some(self.fg), bg: Some(self.bg), bold: false }
    }
}


/// A configuration that overrides no color gives its preset palette.
pub proof fn law_no_overrides_gives_preset(c: ThemeConfig)
    requires
        c.bg is None && c.fg is None && c.fg_dim is None && c.accent is None,
        c.error is None && c.warn is None && c.info is None && c.debug is None,
    ensures
        configured_theme(c) == preset_theme(lowercase(c.preset@)),
{
}

} // verus!
