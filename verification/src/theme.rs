//! Colors: how many the terminal gets, and the few styles everything is drawn
//! with.
use vstd::prelude::*;
use crate::order::Real;
use crate::text::{a_text_is_found_where_it_stands, contains_text, same_text, text_contains};

verus! {

/// How much color the terminal gets.
#[derive(Clone, Copy, PartialEq, Eq, Structural, Debug)]
pub enum ColorMode {
    Truecolor,
    Ansi256,
    Ansi16,
    /// Glyphs and bold only.
    Mono,
}

/// A color triple.
pub type Rgb = (u8, u8, u8);

/// A color as the terminal is told it.
#[derive(Clone, Copy, PartialEq, Eq, Structural, Debug)]
pub enum Paint {
    Rgb(u8, u8, u8),
    Indexed(u8),
    Reset,
}

/// The mode that the environment asks for: no color at all before anything
/// else, then what the terminal says it can do.
pub open spec fn mode_of(no_color: bool, term: Seq<char>, colorterm: Seq<char>) -> ColorMode {
    if no_color || term == "dumb"@ {
        ColorMode::Mono
    } else if colorterm == "truecolor"@ || colorterm == "24bit"@ {
        ColorMode::Truecolor
    } else if contains_text(term, "256color"@) {
        ColorMode::Ansi256
    } else {
        ColorMode::Ansi16
    }
}

pub fn detect_color_mode(no_color: bool, term: &str, colorterm: &str) -> (m: ColorMode)
    ensures
        m == mode_of(no_color, term@, colorterm@),
{
    if no_color || same_text(term, "dumb") {
        ColorMode::Mono
    } else if same_text(colorterm, "truecolor") || same_text(colorterm, "24bit") {
        ColorMode::Truecolor
    } else if text_contains(term, "256color") {
        ColorMode::Ansi256
    } else {
        ColorMode::Ansi16
    }
}

pub open spec fn max3(a: int, b: int, c: int) -> int {
    if a >= b && a >= c {
        a
    } else if b >= c {
        b
    } else {
        c
    }
}

pub open spec fn min3(a: int, b: int, c: int) -> int {
    if a <= b && a <= c {
        a
    } else if b <= c {
        b
    } else {
        c
    }
}

/// A channel's place in the color cube.
pub open spec fn cube(v: int) -> int {
    (v * 5 + 127) / 255
}

/// The nearest of 256: the gray ramp for what is nearly neutral, else the
/// cube.
pub open spec fn to_256(r: int, g: int, b: int) -> int {
    if max3(r, g, b) - min3(r, g, b) < 12 {
        let v = (r + g + b) / 3;
        if v < 8 {
            16
        } else if v > 238 {
            231
        } else {
            232 + (v - 8) / 10
        }
    } else {
        16 + 36 * cube(r) + 6 * cube(g) + cube(b)
    }
}

/// One of the basic sixteen: a bit per dominant channel, and a bright bit.
pub open spec fn to_16(r: int, g: int, b: int) -> int {
    (if r > 96 {
        1
    } else {
        0int
    }) + (if g > 96 {
        2
    } else {
        0int
    }) + (if b > 96 {
        4
    } else {
        0int
    }) + (if max3(r, g, b) > 192 {
        8
    } else {
        0int
    })
}

pub fn rgb_to_256(r: u8, g: u8, b: u8) -> (c: u8)
    ensures
        c == to_256(r as int, g as int, b as int),
        c >= 16,
{
    let (x, y, z): (i32, i32, i32) = (r as i32, g as i32, b as i32);
    let most: i32 = if x >= y && x >= z {
        x
    } else if y >= z {
        y
    } else {
        z
    };
    let least: i32 = if x <= y && x <= z {
        x
    } else if y <= z {
        y
    } else {
        z
    };
    if most - least < 12 {
        let v: i32 = (x + y + z) / 3;
        if v < 8 {
            16
        } else if v > 238 {
            231
        } else {
            (232 + (v - 8) / 10) as u8
        }
    } else {
        let cx: i32 = (x * 5 + 127) / 255;
        let cy: i32 = (y * 5 + 127) / 255;
        let cz: i32 = (z * 5 + 127) / 255;
        (16 + 36 * cx + 6 * cy + cz) as u8
    }
}

pub fn rgb_to_16(r: u8, g: u8, b: u8) -> (c: u8)
    ensures
        c == to_16(r as int, g as int, b as int),
        c < 16,
{
    let mut c: u8 = 0;
    if r > 96 {
        c = c + 1;
    }
    if g > 96 {
        c = c + 2;
    }
    if b > 96 {
        c = c + 4;
    }
    if r > 192 || g > 192 || b > 192 {
        c = c + 8;
    }
    c
}

/// A color in a mode.
pub open spec fn painted(mode: ColorMode, c: Rgb) -> Paint {
    match mode {
        ColorMode::Truecolor => Paint::Rgb(c.0, c.1, c.2),
        ColorMode::Ansi256 => Paint::Indexed(to_256(c.0 as int, c.1 as int, c.2 as int) as u8),
        ColorMode::Ansi16 => Paint::Indexed(to_16(c.0 as int, c.1 as int, c.2 as int) as u8),
        ColorMode::Mono => Paint::Reset,
    }
}

pub fn paint(mode: ColorMode, c: Rgb) -> (p: Paint)
    ensures
        p == painted(mode, c),
{
    match mode {
        ColorMode::Truecolor => Paint::Rgb(c.0, c.1, c.2),
        ColorMode::Ansi256 => Paint::Indexed(rgb_to_256(c.0, c.1, c.2)),
        ColorMode::Ansi16 => Paint::Indexed(rgb_to_16(c.0, c.1, c.2)),
        ColorMode::Mono => Paint::Reset,
    }
}

// ---------------------------------------------------------------- ramps

/// The stretch of a ramp that position `seg` falls on: the last one from its
/// start on.
pub open spec fn stretch(stops: nat, seg: usize) -> int {
    if seg < stops - 2 {
        seg as int
    } else {
        stops - 2
    }
}

/// `c` is what `mix` makes, channel by channel, of the two ends of stretch `i`.
pub open spec fn mixes<F: Fn(usize, u8, u8) -> u8>(mix: F, i: usize, a: Rgb, b: Rgb, c: Rgb) -> bool {
    &&& call_ensures(mix, (i, a.0, b.0), c.0)
    &&& call_ensures(mix, (i, a.1, b.1), c.1)
    &&& call_ensures(mix, (i, a.2, b.2), c.2)
}

/// The color of a ramp at a position whose whole part is `seg`. `mix` says how
/// far between the ends of a stretch the position is. A ramp of one stop is
/// that stop, one of none is black.
pub fn gradient<F: Fn(usize, u8, u8) -> u8>(
    stops: &[Rgb],
    seg: usize,
    mix: F,
    mode: ColorMode,
) -> (p: Paint)
    requires
        forall|i: usize, x: u8, y: u8| call_requires(mix, (i, x, y)),
    ensures
        is_gradient(p, stops@, seg, mix, mode),
{
    if stops.len() == 0 {
        return paint(mode, (0, 0, 0));
    }
    if stops.len() == 1 {
        return paint(mode, stops[0]);
    }
    let i: usize = if seg < stops.len() - 2 {
        seg
    } else {
        stops.len() - 2
    };
    let a = stops[i];
    let b = stops[i + 1];
    let c: Rgb = (mix(i, a.0, b.0), mix(i, a.1, b.1), mix(i, a.2, b.2));
    proof {
        let k = stretch(stops@.len(), seg);
        assert(k == i && a == stops@[k] && b == stops@[k + 1]);
        assert(mixes(mix, k as usize, stops@[k], stops@[k + 1], c));
    }
    paint(mode, c)
}

// ---------------------------------------------------------------- styles

/// A style: colors where it sets any, and the attributes it adds.
#[derive(Clone, Copy, PartialEq, Eq, Structural, Debug)]
pub struct Style {
    pub fg: Option<Paint>,
    pub bg: Option<Paint>,
    pub bold: bool,
    pub dim: bool,
    pub reversed: bool,
}

/// A theme's colors: its own foreground and background where it names them,
/// and a palette by name.
#[derive(Debug)]
pub struct Palette {
    pub foreground: Option<Rgb>,
    pub background: Option<Rgb>,
    pub entries: Vec<(String, Rgb)>,
}

/// The color of that name.
pub open spec fn entry(entries: Seq<(String, Rgb)>, name: Seq<char>, from: int) -> Option<Rgb>
    decreases entries.len() - from,
{
    if from < 0 || from >= entries.len() {
        None
    } else if entries[from].0@ == name {
        Some(entries[from].1)
    } else {
        entry(entries, name, from + 1)
    }
}

/// The first of two names that the palette has, else the fallback.
pub open spec fn pick(p: Palette, first: Seq<char>, second: Seq<char>, fallback: Rgb) -> Rgb {
    match (entry(p.entries@, first, 0), entry(p.entries@, second, 0)) {
        (Some(c), _) => c,
        (None, Some(c)) => c,
        (None, None) => fallback,
    }
}

fn find_entry(p: &Palette, name: &str) -> (r: Option<Rgb>)
    ensures
        r == entry(p.entries@, name@, 0),
{
    let mut i: usize = 0;
    while i < p.entries.len()
        invariant
            i <= p.entries.len(),
            entry(p.entries@, name@, 0) == entry(p.entries@, name@, i as int),
        decreases p.entries.len() - i,
    {
        if same_text(p.entries[i].0.as_str(), name) {
            return Some(p.entries[i].1);
        }
        i = i + 1;
    }
    None
}

fn pal(p: &Palette, first: &str, second: &str, fallback: Rgb) -> (c: Rgb)
    ensures
        c == pick(*p, first@, second@, fallback),
{
    match find_entry(p, first) {
        Some(c) => c,
        None => match find_entry(p, second) {
            Some(c) => c,
            None => fallback,
        },
    }
}

/// The styles everything is drawn with.
#[derive(Clone, Copy, Debug)]
pub struct UiTheme {
    pub mode: ColorMode,
    pub fg: Paint,
    pub bg: Paint,
    /// The background as the theme has it, for colors derived from it.
    pub bg_rgb: Rgb,
    pub border: Style,
    pub border_selected: Style,
    pub title: Style,
    pub dim: Style,
    pub spark_util: Style,
    pub spark_power: Style,
    pub temp_ok: Style,
    pub temp_warn: Style,
    pub temp_crit: Style,
    pub accent: Paint,
    /// The cursor row.
    pub selection: Style,
    /// From cool to hot.
    pub util_stops: [Rgb; 3],
    pub vram_stops: [Rgb; 2],
}

/// A style that only sets the foreground.
pub open spec fn colored(mode: ColorMode, c: Rgb) -> Style {
    Style { fg: Some(painted(mode, c)), bg: None, bold: false, dim: false, reversed: false }
}

pub open spec fn bold(s: Style) -> Style {
    Style { bold: true, ..s }
}

fn color_style(mode: ColorMode, c: Rgb) -> (s: Style)
    ensures
        s == colored(mode, c),
{
    Style { fg: Some(paint(mode, c)), bg: None, bold: false, dim: false, reversed: false }
}

fn bold_style(mode: ColorMode, c: Rgb) -> (s: Style)
    ensures
        s == bold(colored(mode, c)),
{
    Style { fg: Some(paint(mode, c)), bg: None, bold: true, dim: false, reversed: false }
}

pub open spec fn accent_of(p: Palette) -> Rgb {
    pick(p, "mauve"@, "blue"@, (0xcb, 0xa6, 0xf7))
}

pub open spec fn green_of(p: Palette) -> Rgb {
    pick(p, "green"@, "green"@, (0xa6, 0xe3, 0xa1))
}

pub open spec fn yellow_of(p: Palette) -> Rgb {
    pick(p, "yellow"@, "peach"@, (0xf9, 0xe2, 0xaf))
}

pub open spec fn red_of(p: Palette) -> Rgb {
    pick(p, "red"@, "red"@, (0xf3, 0x8b, 0xa8))
}

pub open spec fn blue_of(p: Palette) -> Rgb {
    pick(p, "blue"@, "sky"@, (0x89, 0xb4, 0xfa))
}

pub open spec fn teal_of(p: Palette) -> Rgb {
    pick(p, "teal"@, "sky"@, (0x94, 0xe2, 0xd5))
}

pub open spec fn dim_of(p: Palette) -> Rgb {
    pick(p, "overlay0"@, "surface2"@, (0x6c, 0x70, 0x86))
}

pub open spec fn surface_of(p: Palette) -> Rgb {
    pick(p, "surface1"@, "surface0"@, (0x45, 0x47, 0x5a))
}

pub open spec fn fg_of(p: Palette) -> Rgb {
    match p.foreground {
        Some(c) => c,
        None => pick(p, "text"@, "text"@, (0xcd, 0xd6, 0xf4)),
    }
}

pub open spec fn bg_of(p: Palette) -> Rgb {
    match p.background {
        Some(c) => c,
        None => pick(p, "base"@, "base"@, (0x1e, 0x1e, 0x2e)),
    }
}

/// `t` is the theme of a palette in a mode: every color is looked up by name,
/// with a fallback, and told in the mode's terms; without color, dimness and
/// the cursor row show by attribute instead.
pub open spec fn is_theme(t: UiTheme, p: Palette, mode: ColorMode) -> bool {
    let plain = Style { fg: None, bg: None, bold: false, dim: false, reversed: false };
    &&& t.mode == mode
    &&& t.fg == painted(mode, fg_of(p))
    &&& t.bg == painted(mode, bg_of(p))
    &&& t.bg_rgb == bg_of(p)
    &&& t.border == colored(mode, dim_of(p))
    &&& t.border_selected == bold(colored(mode, accent_of(p)))
    &&& t.title == bold(colored(mode, accent_of(p)))
    &&& t.dim == (if mode == ColorMode::Mono {
        Style { dim: true, ..plain }
    } else {
        colored(mode, dim_of(p))
    })
    &&& t.spark_util == colored(mode, green_of(p))
    &&& t.spark_power == colored(mode, teal_of(p))
    &&& t.temp_ok == colored(mode, green_of(p))
    &&& t.temp_warn == bold(colored(mode, yellow_of(p)))
    &&& t.temp_crit == bold(colored(mode, red_of(p)))
    &&& t.accent == painted(mode, accent_of(p))
    &&& t.selection == (if mode == ColorMode::Mono {
        Style { reversed: true, bold: true, ..plain }
    } else {
        Style { bg: Some(painted(mode, surface_of(p))), bold: true, ..plain }
    })
    &&& t.util_stops@ == seq![green_of(p), yellow_of(p), red_of(p)]
    &&& t.vram_stops@ == seq![blue_of(p), accent_of(p)]
}

/// The built-in theme's palette.
pub open spec fn built_in_color(name: Seq<char>) -> Option<Rgb> {
    if name == "bg"@ {
        Some((0x1e, 0x1e, 0x2e))
    } else if name == "fg"@ {
        Some((0xcd, 0xd6, 0xf4))
    } else if name == "comment"@ {
        Some((0x6c, 0x70, 0x86))
    } else if name == "red"@ {
        Some((0xf3, 0x8b, 0xa8))
    } else if name == "orange"@ {
        Some((0xfa, 0xb3, 0x87))
    } else if name == "yellow"@ {
        Some((0xf9, 0xe2, 0xaf))
    } else if name == "green"@ {
        Some((0xa6, 0xe3, 0xa1))
    } else if name == "teal"@ {
        Some((0x94, 0xe2, 0xd5))
    } else if name == "blue"@ {
        Some((0x89, 0xb4, 0xfa))
    } else if name == "mauve"@ {
        Some((0xcb, 0xa6, 0xf7))
    } else {
        None
    }
}

/// Calls hjkl-theme's `default_theme`. Claimed: the foreground, the background
/// and, in no particular order, the palette of the theme that the crate
/// carries.
#[verifier::external_body]
fn built_in_palette() -> (p: Palette)
    ensures
        p.foreground == Some((0xcdu8, 0xd6u8, 0xf4u8)),
        p.background == Some((0x1eu8, 0x1eu8, 0x2eu8)),
        forall|name: Seq<char>| #[trigger] entry(p.entries@, name, 0) == built_in_color(name),
{
    let t = hjkl_theme::loader::default_theme();
    Palette {
        foreground: t.ui.foreground.map(|c| (c.r, c.g, c.b)),
        background: t.ui.background.map(|c| (c.r, c.g, c.b)),
        entries: t.palette.into_iter().map(|(n, c)| (n, (c.r, c.g, c.b))).collect(),
    }
}

proof fn lemma_built_in_names()
    ensures
        built_in_color("mauve"@) == Some((0xcbu8, 0xa6u8, 0xf7u8)),
        built_in_color("green"@) == Some((0xa6u8, 0xe3u8, 0xa1u8)),
        built_in_color("yellow"@) == Some((0xf9u8, 0xe2u8, 0xafu8)),
        built_in_color("red"@) == Some((0xf3u8, 0x8bu8, 0xa8u8)),
        built_in_color("blue"@) == Some((0x89u8, 0xb4u8, 0xfau8)),
        built_in_color("teal"@) == Some((0x94u8, 0xe2u8, 0xd5u8)),
        built_in_color("overlay0"@) is None,
        built_in_color("surface2"@) is None,
        built_in_color("surface1"@) is None,
        built_in_color("surface0"@) is None,
{
    reveal_strlit("bg");
    reveal_strlit("fg");
    reveal_strlit("comment");
    reveal_strlit("red");
    reveal_strlit("orange");
    reveal_strlit("yellow");
    reveal_strlit("green");
    reveal_strlit("teal");
    reveal_strlit("blue");
    reveal_strlit("mauve");
    reveal_strlit("overlay0");
    reveal_strlit("surface2");
    reveal_strlit("surface1");
    reveal_strlit("surface0");
    assert("bg"@.len() == 2 && "fg"@.len() == 2 && "red"@.len() == 3 && "comment"@.len() == 7);
    assert("teal"@.len() == 4 && "blue"@.len() == 4 && "green"@.len() == 5 && "mauve"@.len() == 5);
    assert("orange"@.len() == 6 && "yellow"@.len() == 6);
    assert("orange"@[0] == 'o' && "yellow"@[0] == 'y');
    assert("green"@[0] == 'g' && "mauve"@[0] == 'm');
    assert("teal"@[0] == 't' && "blue"@[0] == 'b');
}

/// A palette of nothing: every lookup falls back.
pub open spec fn is_bare(p: Palette) -> bool {
    p.foreground is None && p.background is None && p.entries@.len() == 0
}

/// At least this much, as real numbers; `bits` is a positive number's.
pub open spec fn reaches(v: Real, bits: u64) -> bool {
    bits <= v.bits <= 0x7ff0_0000_0000_0000
}

impl UiTheme {
    /// The styles of a palette in a mode.
    pub fn from_theme(p: &Palette, mode: ColorMode) -> (t: Self)
        ensures
            is_theme(t, *p, mode),
    {
        let fg = match p.foreground {
            Some(c) => c,
            None => pal(p, "text", "text", (0xcd, 0xd6, 0xf4)),
        };
        let bg = match p.background {
            Some(c) => c,
            None => pal(p, "base", "base", (0x1e, 0x1e, 0x2e)),
        };
        let accent = pal(p, "mauve", "blue", (0xcb, 0xa6, 0xf7));
        let green = pal(p, "green", "green", (0xa6, 0xe3, 0xa1));
        let yellow = pal(p, "yellow", "peach", (0xf9, 0xe2, 0xaf));
        let red = pal(p, "red", "red", (0xf3, 0x8b, 0xa8));
        let blue = pal(p, "blue", "sky", (0x89, 0xb4, 0xfa));
        let teal = pal(p, "teal", "sky", (0x94, 0xe2, 0xd5));
        let dim = pal(p, "overlay0", "surface2", (0x6c, 0x70, 0x86));
        let surface = pal(p, "surface1", "surface0", (0x45, 0x47, 0x5a));
        let t = UiTheme {
            mode,
            fg: paint(mode, fg),
            bg: paint(mode, bg),
            bg_rgb: bg,
            border: color_style(mode, dim),
            border_selected: bold_style(mode, accent),
            title: bold_style(mode, accent),
            dim: if mode == ColorMode::Mono {
                Style { fg: None, bg: None, bold: false, dim: true, reversed: false }
            } else {
                color_style(mode, dim)
            },
            spark_util: color_style(mode, green),
            spark_power: color_style(mode, teal),
            temp_ok: color_style(mode, green),
            temp_warn: bold_style(mode, yellow),
            temp_crit: bold_style(mode, red),
            accent: paint(mode, accent),
            selection: if mode == ColorMode::Mono {
                Style { fg: None, bg: None, bold: true, dim: false, reversed: true }
            } else {
                Style {
                    fg: None,
                    bg: Some(paint(mode, surface)),
                    bold: true,
                    dim: false,
                    reversed: false,
                }
            },
            util_stops: [green, yellow, red],
            vram_stops: [blue, accent],
        };
        proof {
            assert(t.util_stops@ =~= seq![green_of(*p), yellow_of(*p), red_of(*p)]);
            assert(t.vram_stops@ =~= seq![blue_of(*p), accent_of(*p)]);
        }
        t
    }

    /// The styles of the built-in theme in a mode: the ones that every lookup
    /// falls back to.
    pub fn built_in(mode: ColorMode) -> (t: Self)
        ensures
            forall|p: Palette| is_bare(p) ==> #[trigger] is_theme(t, p, mode),
    {
        let own = built_in_palette();
        let t = UiTheme::from_theme(&own, mode);
        proof {
            lemma_built_in_names();
        }
        t
    }

    /// A temperature's style: critical from ninety degrees, a warning from
    /// seventy-five.
    pub open spec fn heat_style(&self, c: Real) -> Style {
        if reaches(c, 0x4056_8000_0000_0000) {
            self.temp_crit
        } else if reaches(c, 0x4052_c000_0000_0000) {
            self.temp_warn
        } else {
            self.temp_ok
        }
    }

    pub fn temp_style(&self, c: Real) -> (s: Style)
        ensures
            s == self.heat_style(c),
    {
        if c.bits <= 0x7ff0_0000_0000_0000 && c.bits >= 0x4056_8000_0000_0000 {
            self.temp_crit
        } else if c.bits <= 0x7ff0_0000_0000_0000 && c.bits >= 0x4052_c000_0000_0000 {
            self.temp_warn
        } else {
            self.temp_ok
        }
    }
}

/// A terminal with fewer colors is never told a color it does not have: no
/// triple outside the full mode, and no index beyond its table.
pub proof fn colors_stay_in_their_mode(mode: ColorMode, c: Rgb)
    ensures
        painted(mode, c) is Rgb <==> mode == ColorMode::Truecolor,
        painted(mode, c) is Reset <==> mode == ColorMode::Mono,
        painted(mode, c) matches Paint::Indexed(i) ==> (mode == ColorMode::Ansi16 ==> i < 16) && (
        mode == ColorMode::Ansi256 ==> i >= 16),
{
    let (r, g, b) = (c.0 as int, c.1 as int, c.2 as int);
    assert(0 <= to_16(r, g, b) < 16);
    assert(16 <= to_256(r, g, b) <= 255);
}

/// No color is asked for before anything else, and by a terminal that is dumb;
/// full color wins over what the terminal's name says.
pub proof fn the_environment_decides_the_mode(
    no_color: bool,
    term: Seq<char>,
    colorterm: Seq<char>,
    lead: Seq<char>,
)
    ensures
        no_color ==> mode_of(no_color, term, colorterm) == ColorMode::Mono,
        mode_of(no_color, "dumb"@, colorterm) == ColorMode::Mono,
        !no_color && term != "dumb"@ ==> mode_of(no_color, term, "truecolor"@)
            == ColorMode::Truecolor && mode_of(no_color, term, "24bit"@) == ColorMode::Truecolor,
        mode_of(no_color, term, colorterm) == ColorMode::Truecolor ==> colorterm == "truecolor"@
            || colorterm == "24bit"@,
        !no_color && colorterm.len() == 0 ==> mode_of(no_color, lead + "256color"@, colorterm)
            == ColorMode::Ansi256,
        mode_of(no_color, term, colorterm) == ColorMode::Ansi256 ==> contains_text(
            term,
            "256color"@,
        ),
{
    reveal_strlit("dumb");
    reveal_strlit("256color");
    reveal_strlit("truecolor");
    reveal_strlit("24bit");
    let e = Seq::<char>::empty();
    a_text_is_found_where_it_stands(lead, "256color"@, e);
    assert(lead + "256color"@ + e =~= lead + "256color"@);
    assert((lead + "256color"@).len() >= 8);
}

/// A channel goes to the nearest of the six levels of the cube, which stand
/// evenly between none and all; more of it is never a lower level.
pub proof fn channels_go_to_the_nearest_level(v: int, w: int)
    requires
        0 <= v <= w <= 255,
    ensures
        0 <= cube(v) <= cube(w) <= 5,
        -26 <= cube(v) * 51 - v <= 26,
        cube(0) == 0 && cube(255) == 5,
{
}

/// Away from gray each channel counts at its own weight; near gray the ramp
/// rises with the light.
pub proof fn palette_indices_follow_the_channels(
    r: int,
    g: int,
    b: int,
    r2: int,
    g2: int,
    b2: int,
)
    requires
        0 <= r <= r2 <= 255,
        0 <= g <= g2 <= 255,
        0 <= b <= b2 <= 255,
    ensures
        max3(r, g, b) - min3(r, g, b) >= 12 && max3(r2, g2, b2) - min3(r2, g2, b2) >= 12 ==> to_256(
            r2,
            g2,
            b2,
        ) - to_256(r, g, b) == 36 * (cube(r2) - cube(r)) + 6 * (cube(g2) - cube(g)) + (cube(b2)
            - cube(b)),
        max3(r, g, b) - min3(r, g, b) < 12 && max3(r2, g2, b2) - min3(r2, g2, b2) < 12 && 8 * 3
            <= r + g + b && r2 + g2 + b2 < 239 * 3 ==> 232 <= to_256(r, g, b) <= to_256(r2, g2, b2)
            <= 255,
        8 <= r <= 238 ==> 10 * (to_256(r, r, r) - 232) <= r - 8 < 10 * (to_256(r, r, r) - 231),
{
}

/// Of the sixteen, each channel that dominates sets its own bit, and a bright
/// one the last.
pub proof fn basic_colors_are_bits(r: int, g: int, b: int)
    requires
        0 <= r <= 255,
        0 <= g <= 255,
        0 <= b <= 255,
    ensures
        to_16(r, g, b) % 2 == 1 <==> r > 96,
        (to_16(r, g, b) / 2) % 2 == 1 <==> g > 96,
        (to_16(r, g, b) / 4) % 2 == 1 <==> b > 96,
        to_16(r, g, b) >= 8 <==> r > 192 || g > 192 || b > 192,
{
}

/// In full color a color is told as it is.
pub proof fn full_color_keeps_the_channels(c: Rgb)
    ensures
        painted(ColorMode::Truecolor, c) == Paint::Rgb(c.0, c.1, c.2),
        painted(ColorMode::Mono, c) == Paint::Reset,
{
}

/// A position on a ramp falls on the stretch that starts at its whole part; from
/// the last stop on it stays on the last stretch.
pub proof fn a_position_falls_on_its_stretch(stops: nat, seg: usize)
    requires
        stops >= 2,
    ensures
        0 <= stretch(stops, seg) <= stops - 2,
        seg <= stops - 2 ==> stretch(stops, seg) == seg,
        seg >= stops - 2 ==> stretch(stops, seg) == stops - 2,
{
}

/// A color is the first of its name in the palette, and is looked up under its
/// first name, then its second, before the fallback.
pub proof fn colors_are_found_by_name(
    p: Palette,
    first: Seq<char>,
    second: Seq<char>,
    fallback: Rgb,
    from: int,
    k: int,
)
    requires
        0 <= from <= p.entries@.len(),
    ensures
        from <= k < p.entries@.len() && p.entries@[k].0@ == first && (forall|j: int|
            from <= j < k ==> (#[trigger] p.entries@[j]).0@ != first) ==> entry(
            p.entries@,
            first,
            from,
        ) == Some(p.entries@[k].1),
        (forall|j: int| from <= j < p.entries@.len() ==> (#[trigger] p.entries@[j]).0@ != first)
            ==> entry(p.entries@, first, from) is None,
        entry(p.entries@, first, 0) matches Some(c) ==> pick(p, first, second, fallback) == c,
        entry(p.entries@, first, 0) is None ==> (entry(p.entries@, second, 0) matches Some(c)
            ==> pick(p, first, second, fallback) == c),
        entry(p.entries@, first, 0) is None && entry(p.entries@, second, 0) is None ==> pick(
            p,
            first,
            second,
            fallback,
        ) == fallback,
    decreases p.entries@.len() - from,
{
    if from < p.entries@.len() {
        colors_are_found_by_name(p, first, second, fallback, from + 1, k);
    }
}

/// Every style has its own color of the palette: load and cool in green, a
/// warning in yellow, the critical in red, the draw in teal, what is selected
/// in the accent; the load's ramp goes from cool to hot.
pub proof fn styles_follow_the_palette(t: UiTheme, p: Palette, mode: ColorMode, c: Rgb)
    requires
        is_theme(t, p, mode),
    ensures
        entry(p.entries@, "green"@, 0) == Some(c) ==> t.spark_util.fg == Some(painted(mode, c))
            && t.temp_ok.fg == Some(painted(mode, c)) && t.util_stops@[0] == c,
        entry(p.entries@, "yellow"@, 0) == Some(c) ==> t.temp_warn.fg == Some(painted(mode, c))
            && t.temp_warn.bold && t.util_stops@[1] == c,
        entry(p.entries@, "red"@, 0) == Some(c) ==> t.temp_crit.fg == Some(painted(mode, c))
            && t.temp_crit.bold && t.util_stops@[2] == c,
        entry(p.entries@, "teal"@, 0) == Some(c) ==> t.spark_power.fg == Some(painted(mode, c)),
        entry(p.entries@, "mauve"@, 0) == Some(c) ==> t.accent == painted(mode, c) && t.title.fg
            == Some(painted(mode, c)) && t.border_selected.fg == Some(painted(mode, c))
            && t.vram_stops@[1] == c,
        entry(p.entries@, "blue"@, 0) == Some(c) ==> t.vram_stops@[0] == c,
        entry(p.entries@, "overlay0"@, 0) == Some(c) ==> t.border.fg == Some(painted(mode, c)) && (
        mode != ColorMode::Mono ==> t.dim.fg == Some(painted(mode, c))),
        entry(p.entries@, "surface1"@, 0) == Some(c) && mode != ColorMode::Mono ==> t.selection.bg
            == Some(painted(mode, c)),
        p.foreground == Some(c) ==> t.fg == painted(mode, c),
        p.background == Some(c) ==> t.bg == painted(mode, c) && t.bg_rgb == c,
        mode == ColorMode::Mono ==> t.selection.reversed && t.dim.dim,
{
}

/// A hotter card is never styled as the cooler: warnings start at seventy-five
/// degrees and ninety is critical, and what is below zero or no number is
/// neither.
pub proof fn heat_only_gets_worse(t: UiTheme, a: Real, b: Real)
    requires
        a.bits <= b.bits <= 0x7ff0_0000_0000_0000,
    ensures
        t.heat_style(a) == t.temp_crit && t.temp_crit != t.temp_warn && t.temp_crit != t.temp_ok
            ==> t.heat_style(b) == t.temp_crit,
        t.heat_style(a) == t.temp_warn && t.temp_warn != t.temp_ok ==> t.heat_style(b)
            == t.temp_warn || t.heat_style(b) == t.temp_crit,
        t.heat_style((Real { bits: 0x4056_8000_0000_0000 })) == t.temp_crit,
        t.heat_style((Real { bits: 0x4056_7fff_ffff_ffff })) == t.temp_warn,
        t.heat_style((Real { bits: 0x4052_c000_0000_0000 })) == t.temp_warn,
        t.heat_style((Real { bits: 0x4052_bfff_ffff_ffff })) == t.temp_ok,
        a.bits > 0 ==> t.heat_style((Real { bits: (0x8000_0000_0000_0000 + a.bits) as u64 }))
            == t.temp_ok,
{
}

/// A theme keeps the mode it was made for; only warnings, what is selected and
/// titles are bold, nothing is reversed but a cursor row without color, and
/// where a name is missing the second one counts.
pub proof fn styles_stand_apart(t: UiTheme, p: Palette, mode: ColorMode, c: Rgb)
    requires
        is_theme(t, p, mode),
    ensures
        t.mode == mode,
        t.title.bold && t.border_selected.bold && t.selection.bold,
        t.temp_warn.bold && t.temp_crit.bold,
        !t.border.bold && !t.spark_util.bold && !t.spark_power.bold && !t.temp_ok.bold,
        !t.dim.bold && !t.dim.reversed && !t.title.reversed && !t.border.reversed,
        !t.temp_warn.reversed && !t.temp_crit.reversed && !t.temp_ok.reversed,
        mode != ColorMode::Mono ==> !t.selection.reversed && !t.dim.dim,
        mode == ColorMode::Mono ==> t.selection.bg is None && t.dim.fg is None,
        t.border.bg is None && t.title.bg is None && t.dim.bg is None,
        t.util_stops@.len() == 3 && t.vram_stops@.len() == 2,
        entry(p.entries@, "mauve"@, 0) is None && entry(p.entries@, "blue"@, 0) == Some(c)
            ==> t.accent == painted(mode, c),
        entry(p.entries@, "yellow"@, 0) is None && entry(p.entries@, "peach"@, 0) == Some(c)
            ==> t.temp_warn.fg == Some(painted(mode, c)),
        entry(p.entries@, "teal"@, 0) is None && entry(p.entries@, "sky"@, 0) == Some(c)
            ==> t.spark_power.fg == Some(painted(mode, c)),
        entry(p.entries@, "blue"@, 0) is None && entry(p.entries@, "sky"@, 0) == Some(c)
            ==> t.vram_stops@[0] == c,
        entry(p.entries@, "overlay0"@, 0) is None && entry(p.entries@, "surface2"@, 0) == Some(c)
            ==> t.border.fg == Some(painted(mode, c)),
        entry(p.entries@, "surface1"@, 0) is None && entry(p.entries@, "surface0"@, 0) == Some(c)
            && mode != ColorMode::Mono ==> t.selection.bg == Some(painted(mode, c)),
        p.foreground is None && entry(p.entries@, "text"@, 0) == Some(c) ==> t.fg == painted(
            mode,
            c,
        ),
        p.background is None && entry(p.entries@, "base"@, 0) == Some(c) ==> t.bg_rgb == c && t.bg
            == painted(mode, c),
{
}

/// `p` is the color at stretch `seg` of a ramp: black without stops, the one
/// stop there is, or a mix of the ends of the stretch.
pub open spec fn is_gradient<F: Fn(usize, u8, u8) -> u8>(
    p: Paint,
    stops: Seq<Rgb>,
    seg: usize,
    mix: F,
    mode: ColorMode,
) -> bool {
    &&& stops.len() == 0 ==> p == painted(mode, (0u8, 0u8, 0u8))
    &&& stops.len() == 1 ==> p == painted(mode, stops[0])
    &&& stops.len() >= 2 ==> {
        let i = stretch(stops.len(), seg);
        exists|c: Rgb| #[trigger] mixes(mix, i as usize, stops[i], stops[i + 1], c) && p == painted(
            mode,
            c,
        )
    }
}

/// A mix that takes the nearer end's channels gives that end's color, and one
/// stop is the whole ramp.
pub proof fn a_ramp_goes_from_stop_to_stop<F: Fn(usize, u8, u8) -> u8>(
    p: Paint,
    stops: Seq<Rgb>,
    seg: usize,
    mix: F,
    mode: ColorMode,
)
    requires
        is_gradient(p, stops, seg, mix, mode),
    ensures
        stops.len() == 0 ==> p == painted(mode, (0u8, 0u8, 0u8)),
        stops.len() == 1 ==> p == painted(mode, stops[0]),
        stops.len() >= 2 && seg <= stops.len() - 2 && (forall|i: usize, a: u8, b: u8, c: u8|
            call_ensures(mix, (i, a, b), c) ==> c == a) ==> p == painted(mode, stops[seg as int]),
        stops.len() >= 2 && seg <= stops.len() - 2 && (forall|i: usize, a: u8, b: u8, c: u8|
            call_ensures(mix, (i, a, b), c) ==> c == b) ==> p == painted(
            mode,
            stops[seg as int + 1],
        ),
{
    if stops.len() >= 2 {
        let i = stretch(stops.len(), seg);
        let c = choose|c: Rgb| #[trigger] mixes(mix, i as usize, stops[i], stops[i + 1], c) && p
            == painted(mode, c);
        if seg <= stops.len() - 2 {
            assert(i == seg);
        }
    }
}

} // verus!
