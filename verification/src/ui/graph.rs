//! Graphs as glyphs: inline sparklines and the mirrored waveform.
use vstd::prelude::*;
use crate::app::{GraphStyle, Rect};
use crate::text::string_of;

verus! {

/// Sample `i` of a window of `window` values that ends with the newest sample;
/// where there is no history yet it reads zero. A sample that could not be read
/// is none, which is not zero.
pub open spec fn sample_at(data: Seq<Option<u64>>, i: int, window: int) -> Option<u64> {
    let k = data.len() - window + i;
    if k < 0 {
        Some(0)
    } else {
        data[k]
    }
}

pub fn windowed(data: &Vec<Option<u64>>, i: usize, window: usize) -> (v: Option<u64>)
    requires
        i < window,
    ensures
        v == sample_at(data@, i as int, window as int),
{
    let n: usize = data.len();
    if n >= window {
        data[n - window + i]
    } else {
        let pad: usize = window - n;
        if i < pad {
            Some(0)
        } else {
            data[i - pad]
        }
    }
}

/// Samples that one terminal column of graph can show.
pub fn samples_per_column(style: GraphStyle) -> (n: usize)
    ensures
        n == (if style == GraphStyle::Braille {
            2int
        } else {
            1
        }),
{
    if style == GraphStyle::Braille {
        2
    } else {
        1
    }
}

// ---------------------------------------------------------------- glyphs

/// Lower blocks by filled eighths.
pub open spec fn eighth(n: int) -> char {
    if n <= 0 {
        ' '
    } else if n == 1 {
        '▁'
    } else if n == 2 {
        '▂'
    } else if n == 3 {
        '▃'
    } else if n == 4 {
        '▄'
    } else if n == 5 {
        '▅'
    } else if n == 6 {
        '▆'
    } else if n == 7 {
        '▇'
    } else {
        '█'
    }
}

fn eighth_glyph(n: usize) -> (c: char)
    ensures
        c == eighth(n as int),
{
    if n == 0 {
        ' '
    } else if n == 1 {
        '▁'
    } else if n == 2 {
        '▂'
    } else if n == 3 {
        '▃'
    } else if n == 4 {
        '▄'
    } else if n == 5 {
        '▅'
    } else if n == 6 {
        '▆'
    } else if n == 7 {
        '▇'
    } else {
        '█'
    }
}

/// Coverage in plain characters, by filled quarters; zero is the baseline.
pub open spec fn ramp(n: int) -> char {
    if n <= 0 {
        '_'
    } else if n == 1 {
        '.'
    } else if n == 2 {
        '-'
    } else if n == 3 {
        '+'
    } else {
        '#'
    }
}

pub fn ramp_glyph(n: usize) -> (c: char)
    ensures
        c == ramp(n as int),
{
    if n == 0 {
        '_'
    } else if n == 1 {
        '.'
    } else if n == 2 {
        '-'
    } else if n == 3 {
        '+'
    } else {
        '#'
    }
}

/// The dots of a braille column filled from below, `n` of four, as a bit mask.
pub open spec fn dots_up(right: bool, n: int) -> int {
    if right {
        if n <= 0 {
            0
        } else if n == 1 {
            0x80
        } else if n == 2 {
            0xa0
        } else if n == 3 {
            0xb0
        } else {
            0xb8
        }
    } else {
        if n <= 0 {
            0
        } else if n == 1 {
            0x40
        } else if n == 2 {
            0x44
        } else if n == 3 {
            0x46
        } else {
            0x47
        }
    }
}

/// The dots of a braille column filled from above.
pub open spec fn dots_down(right: bool, n: int) -> int {
    if right {
        if n <= 0 {
            0
        } else if n == 1 {
            0x08
        } else if n == 2 {
            0x18
        } else if n == 3 {
            0x38
        } else {
            0xb8
        }
    } else {
        if n <= 0 {
            0
        } else if n == 1 {
            0x01
        } else if n == 2 {
            0x03
        } else if n == 3 {
            0x07
        } else {
            0x47
        }
    }
}

fn column_up(right: bool, n: usize) -> (m: u8)
    ensures
        m == dots_up(right, n as int),
        right ==> m <= 0xb8,
        !right ==> m <= 0x47,
{
    if right {
        if n == 0 {
            0
        } else if n == 1 {
            0x80
        } else if n == 2 {
            0xa0
        } else if n == 3 {
            0xb0
        } else {
            0xb8
        }
    } else {
        if n == 0 {
            0
        } else if n == 1 {
            0x40
        } else if n == 2 {
            0x44
        } else if n == 3 {
            0x46
        } else {
            0x47
        }
    }
}

fn column_down(right: bool, n: usize) -> (m: u8)
    ensures
        m == dots_down(right, n as int),
        right ==> m <= 0xb8,
        !right ==> m <= 0x47,
{
    if right {
        if n == 0 {
            0
        } else if n == 1 {
            0x08
        } else if n == 2 {
            0x18
        } else if n == 3 {
            0x38
        } else {
            0xb8
        }
    } else {
        if n == 0 {
            0
        } else if n == 1 {
            0x01
        } else if n == 2 {
            0x03
        } else if n == 3 {
            0x07
        } else {
            0x47
        }
    }
}

/// The braille character of a left and a right column.
pub open spec fn braille(left: int, right: int) -> char {
    (0x2800 + left + right) as char
}

/// `char::from_u32`, on a code point of the braille block. Claimed: such a
/// number is a character's, and the character is the one of that number.
#[verifier::external_body]
fn braille_char(code: u32) -> (c: char)
    requires
        0x2800 <= code <= 0x28ff,
    ensures
        c == code as char,
{
    char::from_u32(code).unwrap_or(' ')
}

fn braille_glyph(left: u8, right: u8) -> (c: char)
    requires
        left + right <= 0xff,
    ensures
        c == braille(left as int, right as int),
{
    braille_char(0x2800 + left as u32 + right as u32)
}

// ---------------------------------------------------------------- sparklines

/// `v` of `max`, in `steps` steps rounded up, and no less than `least`.
pub open spec fn level(v: u64, max: u64, steps: int, least: int) -> int {
    let capped = if v > max {
        max
    } else {
        v
    };
    let n = (capped * steps + max - 1) / (max as int);
    if n < least {
        least
    } else {
        n
    }
}

fn level_of(v: u64, max: u64, steps: usize, least: usize) -> (n: usize)
    requires
        max > 0,
        1 <= steps <= 8,
        least <= steps,
    ensures
        n == level(v, max, steps as int, least as int),
        n <= steps,
{
    let capped: u64 = if v > max {
        max
    } else {
        v
    };
    assert(capped * steps <= max * steps && max * steps <= 8 * 0xffff_ffff_ffff_ffff) by (nonlinear_arith)
        requires
            capped <= max <= 0xffff_ffff_ffff_ffff,
            steps <= 8,
    ;
    let n: u128 = (capped as u128 * steps as u128 + max as u128 - 1) / (max as u128);
    assert(n <= steps) by (nonlinear_arith)
        requires
            n == (capped * steps + max - 1) / (max as int),
            capped <= max,
            max > 0,
            steps >= 1,
    ;
    let k: usize = n as usize;
    if k < least {
        least
    } else {
        k
    }
}

/// A cell of a sparkline in block or plain characters; blank where the sample
/// could not be read.
pub open spec fn spark_cell(data: Seq<Option<u64>>, c: int, max: u64, style: GraphStyle) -> char {
    match sample_at(data, c, 5) {
        None => ' ',
        Some(v) => if style == GraphStyle::Block {
            eighth(level(v, max, 8, 1))
        } else {
            ramp(level(v, max, 4, 0))
        },
    }
}

/// The dots of one sample of a braille sparkline: at least one, and none where
/// it could not be read.
pub open spec fn spark_level(v: Option<u64>, max: u64) -> int {
    match v {
        Some(n) => level(n, max, 4, 1),
        None => 0,
    }
}

fn spark_level_of(v: Option<u64>, max: u64) -> (n: usize)
    requires
        max > 0,
    ensures
        n == spark_level(v, max),
        n <= 4,
{
    match v {
        Some(x) => level_of(x, max, 4, 1),
        None => 0,
    }
}

/// A cell of a sparkline in braille: two samples.
pub open spec fn spark_dots(data: Seq<Option<u64>>, c: int, max: u64) -> char {
    braille(
        dots_up(false, spark_level(sample_at(data, c * 2, 10), max)),
        dots_up(true, spark_level(sample_at(data, c * 2 + 1, 10), max)),
    )
}

/// Five cells of the newest samples, scaled to a maximum of at least one.
pub open spec fn spark(data: Seq<Option<u64>>, max: u64, style: GraphStyle) -> Seq<char> {
    let m = if max == 0 {
        1
    } else {
        max
    };
    Seq::new(
        5,
        |c: int|
            if style == GraphStyle::Braille {
                spark_dots(data, c, m)
            } else {
                spark_cell(data, c, m, style)
            },
    )
}

/// A five-cell sparkline in the configured glyphs.
pub fn mini_spark(data: &Vec<Option<u64>>, max: u64, style: GraphStyle) -> (s: String)
    ensures
        s@ == spark(data@, max, style),
{
    let m: u64 = if max == 0 {
        1
    } else {
        max
    };
    let mut out: Vec<char> = Vec::new();
    let mut c: usize = 0;
    while c < 5
        invariant
            c <= 5,
            m == (if max == 0 {
                1
            } else {
                max
            }),
            out@ == spark(data@, max, style).take(c as int),
        decreases 5 - c,
    {
        let glyph = if style == GraphStyle::Braille {
            let a: usize = spark_level_of(windowed(data, c * 2, 10), m);
            let b: usize = spark_level_of(windowed(data, c * 2 + 1, 10), m);
            braille_glyph(column_up(false, a), column_up(true, b))
        } else {
            match windowed(data, c, 5) {
                None => ' ',
                Some(v) => if style == GraphStyle::Block {
                    eighth_glyph(level_of(v, m, 8, 1))
                } else {
                    ramp_glyph(level_of(v, m, 4, 0))
                },
            }
        };
        out.push(glyph);
        assert(out@ =~= spark(data@, max, style).take(c + 1));
        c = c + 1;
    }
    assert(out@ =~= spark(data@, max, style));
    string_of(&out)
}

// ---------------------------------------------------------------- waveform

/// One cell of the waveform. `cy` counts away from the midline, over `rows`
/// rows of its half, for the cell's place in the gradient.
#[derive(Clone, Copy, PartialEq, Eq, Structural, Debug)]
pub struct WaveCell {
    pub x: u16,
    pub y: u16,
    pub ch: char,
    /// In the lower half, which grows down.
    pub lower: bool,
    pub cy: usize,
    pub rows: usize,
    /// The empty part is drawn, in the background's color, over a filled cell.
    pub inverted: bool,
    /// No sample of the cell could be read: it is drawn dim, not in the
    /// gradient.
    pub unknown: bool,
}

/// A percentage in sub-units over `rows` rows of `unit` each, at least one, so
/// that the midline shows at zero and where nothing could be read.
pub open spec fn filled(v: Option<u64>, rows: int, unit: int) -> int {
    let capped: int = match v {
        Some(n) => if n > 100 {
            100
        } else {
            n as int
        },
        None => 0,
    };
    let n = (capped * rows * unit) / 100;
    if n < 1 {
        1
    } else {
        n
    }
}

/// How much of that falls into row `cy`.
pub open spec fn in_row(total: int, cy: int, unit: int) -> int {
    let left = total - cy * unit;
    if left <= 0 {
        0
    } else if left > unit {
        unit
    } else {
        left
    }
}

fn part_in_row(v: Option<u64>, rows: usize, unit: usize, cy: usize) -> (n: usize)
    requires
        rows <= 0xffff,
        cy < rows,
        1 <= unit <= 8,
    ensures
        n == in_row(filled(v, rows as int, unit as int), cy as int, unit as int),
        n <= unit,
{
    let capped: u64 = match v {
        Some(n) => if n > 100 {
            100
        } else {
            n
        },
        None => 0,
    };
    let whole: u64 = rows as u64;
    let step: u64 = unit as u64;
    assert(capped * whole <= 100 * 0xffff) by (nonlinear_arith)
        requires
            capped <= 100,
            whole <= 0xffff,
    ;
    assert(capped * whole * step <= 100 * 0xffff * 8) by (nonlinear_arith)
        requires
            capped * whole <= 100 * 0xffff,
            step <= 8,
    ;
    let n: u64 = capped * whole * step / 100;
    let total: u64 = if n < 1 {
        1
    } else {
        n
    };
    assert(cy * unit <= 0xffff * 8) by (nonlinear_arith)
        requires
            cy < 0xffff,
            unit <= 8,
    ;
    let below: u64 = cy as u64 * step;
    if total <= below {
        0
    } else {
        let left: u64 = total - below;
        if left > step {
            unit
        } else {
            left as usize
        }
    }
}

/// The glyph of a braille cell; none where no dot falls into it.
pub open spec fn braille_cell(
    data: Seq<Option<u64>>,
    cx: int,
    cols: int,
    rows: int,
    cy: int,
    lower: bool,
) -> Option<char> {
    let a = in_row(filled(sample_at(data, cx * 2, cols * 2), rows, 4), cy, 4);
    let b = in_row(filled(sample_at(data, cx * 2 + 1, cols * 2), rows, 4), cy, 4);
    if a == 0 && b == 0 {
        None
    } else if lower {
        Some(braille(dots_down(false, a), dots_down(true, b)))
    } else {
        Some(braille(dots_up(false, a), dots_up(true, b)))
    }
}

/// The glyph of a block or plain cell, and whether it is inverted: a block
/// that grows down is drawn as the empty part below it.
pub open spec fn solid_cell(
    data: Seq<Option<u64>>,
    cx: int,
    cols: int,
    rows: int,
    cy: int,
    lower: bool,
    style: GraphStyle,
) -> Option<(char, bool)> {
    let unit: int = if style == GraphStyle::Block {
        8
    } else {
        4
    };
    let n = in_row(filled(sample_at(data, cx, cols), rows, unit), cy, unit);
    if n == 0 {
        None
    } else if style == GraphStyle::Block {
        if !lower {
            Some((eighth(n), false))
        } else if n == 8 {
            Some(('█', false))
        } else {
            Some((eighth(8 - n), true))
        }
    } else {
        Some((ramp(n), false))
    }
}

/// The cell at column `cx` of row `cy` of one half.
pub open spec fn wave_cell(
    area: Rect,
    data: Seq<Option<u64>>,
    lower: bool,
    cy: int,
    cx: int,
    style: GraphStyle,
) -> Option<WaveCell> {
    let top = (area.height / 2) as int;
    let rows = if lower {
        area.height - top
    } else {
        top
    };
    let y = if lower {
        area.y + top + cy
    } else {
        area.y + top - 1 - cy
    };
    let drawn = if style == GraphStyle::Braille {
        match braille_cell(data, cx, area.width as int, rows, cy, lower) {
            Some(ch) => Some((ch, false)),
            None => None,
        }
    } else {
        solid_cell(data, cx, area.width as int, rows, cy, lower, style)
    };
    let unknown = if style == GraphStyle::Braille {
        sample_at(data, cx * 2, area.width * 2) is None && sample_at(
            data,
            cx * 2 + 1,
            area.width * 2,
        ) is None
    } else {
        sample_at(data, cx, area.width as int) is None
    };
    match drawn {
        Some((ch, inverted)) => Some(
            WaveCell {
                x: (area.x + cx) as u16,
                y: y as u16,
                ch,
                lower,
                cy: cy as usize,
                rows: rows as usize,
                inverted,
                unknown,
            },
        ),
        None => None,
    }
}

/// The cells of one row, from the left, up to column `n`.
pub open spec fn wave_row(
    area: Rect,
    data: Seq<Option<u64>>,
    lower: bool,
    cy: int,
    n: int,
    style: GraphStyle,
) -> Seq<WaveCell>
    decreases n,
{
    if n <= 0 {
        Seq::empty()
    } else {
        let rest = wave_row(area, data, lower, cy, n - 1, style);
        match wave_cell(area, data, lower, cy, n - 1, style) {
            Some(c) => rest.push(c),
            None => rest,
        }
    }
}

/// The cells of the `n` rows of one half next to the midline.
pub open spec fn wave_half(
    area: Rect,
    data: Seq<Option<u64>>,
    lower: bool,
    n: int,
    style: GraphStyle,
) -> Seq<WaveCell>
    decreases n,
{
    if n <= 0 {
        Seq::empty()
    } else {
        wave_half(area, data, lower, n - 1, style) + wave_row(
            area,
            data,
            lower,
            n - 1,
            area.width as int,
            style,
        )
    }
}

/// The waveform: `up` grows up from the midline, `down` grows down.
pub open spec fn wave(area: Rect, up: Seq<Option<u64>>, down: Seq<Option<u64>>, style: GraphStyle) -> Seq<WaveCell> {
    let top = (area.height / 2) as int;
    wave_half(area, up, false, top, style) + wave_half(area, down, true, area.height - top, style)
}

fn cell_at(area: Rect, data: &Vec<Option<u64>>, lower: bool, cy: usize, cx: usize, style: GraphStyle) -> (r:
    Option<WaveCell>)
    requires
        area.x + area.width <= 0xffff,
        area.y + area.height <= 0xffff,
        cx < area.width,
        cy < (if lower {
            area.height - area.height / 2
        } else {
            area.height as int / 2
        }),
    ensures
        r == wave_cell(area, data@, lower, cy as int, cx as int, style),
{
    let height: usize = area.height as usize;
    let top: usize = height / 2;
    let rows: usize = if lower {
        height - top
    } else {
        top
    };
    let cols: usize = area.width as usize;
    let y: u16 = if lower {
        (area.y as usize + top + cy) as u16
    } else {
        (area.y as usize + top - 1 - cy) as u16
    };
    let drawn = if style == GraphStyle::Braille {
        let a: usize = part_in_row(windowed(data, cx * 2, cols * 2), rows, 4, cy);
        let b: usize = part_in_row(windowed(data, cx * 2 + 1, cols * 2), rows, 4, cy);
        if a == 0 && b == 0 {
            None
        } else if lower {
            Some((braille_glyph(column_down(false, a), column_down(true, b)), false))
        } else {
            Some((braille_glyph(column_up(false, a), column_up(true, b)), false))
        }
    } else if style == GraphStyle::Block {
        let n: usize = part_in_row(windowed(data, cx, cols), rows, 8, cy);
        if n == 0 {
            None
        } else if !lower {
            Some((eighth_glyph(n), false))
        } else if n == 8 {
            Some(('█', false))
        } else {
            Some((eighth_glyph(8 - n), true))
        }
    } else {
        let n: usize = part_in_row(windowed(data, cx, cols), rows, 4, cy);
        if n == 0 {
            None
        } else {
            Some((ramp_glyph(n), false))
        }
    };
    let unknown = if style == GraphStyle::Braille {
        windowed(data, cx * 2, cols * 2).is_none() && windowed(data, cx * 2 + 1, cols * 2).is_none()
    } else {
        windowed(data, cx, cols).is_none()
    };
    match drawn {
        Some((ch, inverted)) => Some(
            WaveCell { x: area.x + cx as u16, y, ch, lower, cy, rows, inverted, unknown },
        ),
        None => None,
    }
}

fn half_cells(out: &mut Vec<WaveCell>, area: Rect, data: &Vec<Option<u64>>, lower: bool, style: GraphStyle)
    requires
        area.x + area.width <= 0xffff,
        area.y + area.height <= 0xffff,
    ensures
        final(out)@ == old(out)@ + wave_half(
            area,
            data@,
            lower,
            if lower {
                area.height - area.height / 2
            } else {
                area.height as int / 2
            },
            style,
        ),
{
    let ghost before = out@;
    let top: usize = area.height as usize / 2;
    let rows: usize = if lower {
        area.height as usize - top
    } else {
        top
    };
    let cols: usize = area.width as usize;
    let mut cy: usize = 0;
    assert(out@ =~= before + wave_half(area, data@, lower, 0, style));
    while cy < rows
        invariant
            cy <= rows,
            cols == area.width,
            rows == (if lower {
                area.height - area.height / 2
            } else {
                area.height as int / 2
            }),
            area.x + area.width <= 0xffff,
            area.y + area.height <= 0xffff,
            out@ == before + wave_half(area, data@, lower, cy as int, style),
        decreases rows - cy,
    {
        let ghost so_far = out@;
        let mut cx: usize = 0;
        assert(out@ =~= so_far + wave_row(area, data@, lower, cy as int, 0, style));
        while cx < cols
            invariant
                cx <= cols,
                cols == area.width,
                cy < rows,
                rows == (if lower {
                    area.height - area.height / 2
                } else {
                    area.height as int / 2
                }),
                area.x + area.width <= 0xffff,
                area.y + area.height <= 0xffff,
                out@ == so_far + wave_row(area, data@, lower, cy as int, cx as int, style),
            decreases cols - cx,
        {
            let ghost was = out@;
            match cell_at(area, data, lower, cy, cx, style) {
                Some(c) => {
                    out.push(c);
                },
                None => {},
            }
            assert(out@ =~= so_far + wave_row(area, data@, lower, cy as int, cx + 1, style));
            cx = cx + 1;
        }
        assert(out@ =~= before + wave_half(area, data@, lower, cy + 1, style));
        cy = cy + 1;
    }
}

/// The waveform's cells; an area of fewer than two rows, or of none wide, has
/// none.
pub fn waveform(area: Rect, up: &Vec<Option<u64>>, down: &Vec<Option<u64>>, style: GraphStyle) -> (out: Vec<
    WaveCell,
>)
    requires
        area.x + area.width <= 0xffff,
        area.y + area.height <= 0xffff,
    ensures
        out@ == (if area.height < 2 || area.width == 0 {
            Seq::empty()
        } else {
            wave(area, up@, down@, style)
        }),
{
    let mut out: Vec<WaveCell> = Vec::new();
    if area.height < 2 || area.width == 0 {
        return out;
    }
    half_cells(&mut out, area, up, false, style);
    let ghost upper = out@;
    half_cells(&mut out, area, down, true, style);
    assert(out@ =~= wave(area, up@, down@, style));
    out
}

proof fn lemma_wave_row(area: Rect, data: Seq<Option<u64>>, lower: bool, cy: int, n: int, style: GraphStyle)
    requires
        area.x + area.width <= 0xffff,
        area.y + area.height <= 0xffff,
        0 <= n <= area.width,
        0 <= cy < (if lower {
            area.height - area.height / 2
        } else {
            area.height as int / 2
        }),
    ensures
        forall|k: int|
            0 <= k < wave_row(area, data, lower, cy, n, style).len() ==> (#[trigger] wave_row(
                area,
                data,
                lower,
                cy,
                n,
                style,
            )[k]).x < area.x + n && area.x <= wave_row(area, data, lower, cy, n, style)[k].x
                && area.y <= wave_row(area, data, lower, cy, n, style)[k].y < area.y + area.height,
    decreases n,
{
    if n > 0 {
        lemma_wave_row(area, data, lower, cy, n - 1, style);
        let rest = wave_row(area, data, lower, cy, n - 1, style);
        let all = wave_row(area, data, lower, cy, n, style);
        assert forall|k: int| 0 <= k < all.len() implies (#[trigger] all[k]).x < area.x + n && area.x
            <= all[k].x && area.y <= all[k].y < area.y + area.height by {
            if k < rest.len() {
                assert(all[k] == rest[k]);
            }
        }
    }
}

proof fn lemma_wave_half(area: Rect, data: Seq<Option<u64>>, lower: bool, n: int, style: GraphStyle)
    requires
        area.x + area.width <= 0xffff,
        area.y + area.height <= 0xffff,
        0 <= n <= (if lower {
            area.height - area.height / 2
        } else {
            area.height as int / 2
        }),
    ensures
        forall|k: int|
            0 <= k < wave_half(area, data, lower, n, style).len() ==> in_area(
                area,
                #[trigger] wave_half(area, data, lower, n, style)[k],
            ),
    decreases n,
{
    if n > 0 {
        lemma_wave_half(area, data, lower, n - 1, style);
        lemma_wave_row(area, data, lower, n - 1, area.width as int, style);
        let rest = wave_half(area, data, lower, n - 1, style);
        let last = wave_row(area, data, lower, n - 1, area.width as int, style);
        let all = wave_half(area, data, lower, n, style);
        assert forall|k: int| 0 <= k < all.len() implies in_area(area, #[trigger] all[k]) by {
            if k < rest.len() {
                assert(all[k] == rest[k]);
            } else {
                assert(all[k] == last[k - rest.len()]);
            }
        }
    }
}

/// The cell lies in the area.
pub open spec fn in_area(area: Rect, c: WaveCell) -> bool {
    area.x <= c.x < area.x + area.width && area.y <= c.y < area.y + area.height
}

/// No cell of a waveform lies outside its area.
pub proof fn the_waveform_stays_in_its_area(
    area: Rect,
    up: Seq<Option<u64>>,
    down: Seq<Option<u64>>,
    style: GraphStyle,
    k: int,
)
    requires
        area.x + area.width <= 0xffff,
        area.y + area.height <= 0xffff,
        0 <= k < wave(area, up, down, style).len(),
    ensures
        in_area(area, wave(area, up, down, style)[k]),
{
    let top = (area.height / 2) as int;
    lemma_wave_half(area, up, false, top, style);
    lemma_wave_half(area, down, true, area.height - top, style);
    let a = wave_half(area, up, false, top, style);
    let b = wave_half(area, down, true, area.height - top, style);
    if k < a.len() {
        assert(wave(area, up, down, style)[k] == a[k]);
    } else {
        assert(wave(area, up, down, style)[k] == b[k - a.len()]);
    }
}

/// The midline is drawn in every column of either half, whatever the samples:
/// an idle card still shows a line.
pub proof fn the_midline_is_always_drawn(
    area: Rect,
    data: Seq<Option<u64>>,
    lower: bool,
    cx: int,
    style: GraphStyle,
)
    requires
        0 <= cx < area.width,
        area.height >= 2,
    ensures
        wave_cell(area, data, lower, 0, cx, style) is Some,
{
}

// ---------------------------------------------------------------- scales

proof fn lemma_share(c: int, rows: int, unit: int)
    requires
        0 <= c <= 100,
        rows >= 1,
        unit >= 1,
    ensures
        0 <= c * rows * unit <= 100 * (rows * unit),
        c == 0 ==> c * rows * unit == 0,
        c == 100 ==> c * rows * unit == 100 * (rows * unit),
        rows * unit >= 1,
{
    assert(c * rows * unit == c * (rows * unit)) by (nonlinear_arith);
    assert(rows * unit >= 1) by (nonlinear_arith)
        requires
            rows >= 1,
            unit >= 1,
    ;
    let m = rows * unit;
    assert(0 <= c * m <= 100 * m) by (nonlinear_arith)
        requires
            0 <= c <= 100,
            m >= 1,
    ;
    assert(c == 0 ==> c * m == 0) by (nonlinear_arith);
    assert(c == 100 ==> c * m == 100 * m) by (nonlinear_arith);
}

/// The graph rises with the sample: an idle card fills one sub-unit and no
/// more, as does one that could not be read; a busy one fills the half; what
/// lies between is in proportion, rounded down; and a higher sample never fills
/// less.
pub proof fn graphs_rise_with_the_sample(a: u64, b: u64, rows: int, unit: int)
    requires
        a <= b,
        rows >= 1,
        unit >= 1,
    ensures
        filled(Some(0), rows, unit) == 1,
        filled(None, rows, unit) == 1,
        b >= 100 ==> filled(Some(b), rows, unit) == rows * unit,
        filled(Some(a), rows, unit) <= filled(Some(b), rows, unit),
        1 <= filled(Some(b), rows, unit) <= rows * unit,
        b <= 100 && 100 <= b * (rows * unit) ==> 100 * filled(Some(b), rows, unit) <= b * (rows
            * unit) < 100 * filled(Some(b), rows, unit) + 100,
        b <= 100 && b * (rows * unit) < 100 ==> filled(Some(b), rows, unit) == 1,
{
    let x: int = if a > 100 {
        100
    } else {
        a as int
    };
    let y: int = if b > 100 {
        100
    } else {
        b as int
    };
    lemma_share(0, rows, unit);
    lemma_share(x, rows, unit);
    lemma_share(y, rows, unit);
    assert(x * rows * unit <= y * rows * unit) by (nonlinear_arith)
        requires
            x <= y,
            rows >= 1,
            unit >= 1,
    ;
    assert(y * rows * unit == y * (rows * unit)) by (nonlinear_arith);
}

/// What the rows of one half hold together, up to row `n`.
pub open spec fn in_rows(total: int, n: int, unit: int) -> int
    decreases n,
{
    if n <= 0 {
        0
    } else {
        in_rows(total, n - 1, unit) + in_row(total, n - 1, unit)
    }
}

/// A column is filled from the midline outwards and nothing of it is lost: each
/// row takes what fits, none takes any before the one inside it is full, and
/// together they hold the whole.
pub proof fn columns_fill_from_the_midline(total: int, cy: int, n: int, unit: int)
    requires
        0 <= total,
        0 <= cy,
        0 <= n,
        unit >= 1,
    ensures
        0 <= in_row(total, cy, unit) <= unit,
        in_row(total, cy + 1, unit) > 0 ==> in_row(total, cy, unit) == unit,
        in_row(total, cy, unit) > 0 <==> total > cy * unit,
        total <= n * unit ==> in_rows(total, n, unit) == total,
        total >= n * unit ==> in_rows(total, n, unit) == n * unit,
    decreases n,
{
    assert((cy + 1) * unit == cy * unit + unit) by (nonlinear_arith);
    if n > 0 {
        columns_fill_from_the_midline(total, cy, n - 1, unit);
        assert(n * unit == (n - 1) * unit + unit) by (nonlinear_arith);
        assert((n - 1) * unit >= 0) by (nonlinear_arith)
            requires
                n >= 1,
                unit >= 1,
        ;
    } else {
        assert(n * unit == 0) by (nonlinear_arith)
            requires
                n == 0,
        ;
    }
}

/// A sparkline's level rises with the value: nothing is the lowest level, the
/// maximum and all above it the highest, and a value between them takes as many
/// steps as are needed to reach it.
pub proof fn levels_rise_with_the_value(a: u64, b: u64, max: u64, steps: int, least: int)
    requires
        a <= b,
        max > 0,
        1 <= steps,
        0 <= least <= 1,
    ensures
        level(0, max, steps, least) == least,
        b >= max ==> level(b, max, steps, least) == steps,
        level(a, max, steps, least) <= level(b, max, steps, least),
        least <= level(b, max, steps, least) <= steps,
        0 < b <= max ==> {
            let n = level(b, max, steps, least);
            (n - 1) * max < b * steps <= n * max
        },
{
    let m = max as int;
    let x: int = if a > max {
        m
    } else {
        a as int
    };
    let y: int = if b > max {
        m
    } else {
        b as int
    };
    let p = x * steps;
    let q = y * steps;
    let z = (0 * steps + m - 1) / m;
    assert(0 * steps == 0) by (nonlinear_arith);
    assert(z == 0) by (nonlinear_arith)
        requires
            z == (m - 1) / m,
            m > 0,
    ;
    assert(0 <= p <= q <= m * steps) by (nonlinear_arith)
        requires
            0 <= x <= y <= m,
            steps >= 1,
            p == x * steps,
            q == y * steps,
    ;
    let i = (p + m - 1) / m;
    let j = (q + m - 1) / m;
    assert(0 <= i <= j) by (nonlinear_arith)
        requires
            0 <= p <= q,
            m > 0,
            i == (p + m - 1) / m,
            j == (q + m - 1) / m,
    ;
    assert((j - 1) * m < q <= j * m) by (nonlinear_arith)
        requires
            0 <= q,
            m > 0,
            j == (q + m - 1) / m,
    ;
    assert(j <= steps) by (nonlinear_arith)
        requires
            (j - 1) * m < q,
            q <= m * steps,
            m > 0,
    ;
    assert(q == m * steps ==> j >= steps) by (nonlinear_arith)
        requires
            q <= j * m,
            m > 0,
    ;
    assert(y >= 1 ==> q >= 1) by (nonlinear_arith)
        requires
            q == y * steps,
            steps >= 1,
    ;
    assert(q >= 1 ==> j >= 1) by (nonlinear_arith)
        requires
            q <= j * m,
            m > 0,
    ;
    assert(y == m ==> q == m * steps);
}

/// The newest sample stands at the right edge, a new one moves the others one
/// place to the left, and before the history began there is nothing.
pub proof fn history_scrolls_to_the_left(
    data: Seq<Option<u64>>,
    v: Option<u64>,
    i: int,
    window: int,
)
    requires
        0 <= i < window,
    ensures
        sample_at(data.push(v), window - 1, window) == v,
        i + 1 < window ==> sample_at(data.push(v), i, window) == sample_at(data, i + 1, window),
        data.len() == 0 ==> sample_at(data, i, window) == Some(0u64),
{
}

/// The glyphs tell their levels apart: the blocks follow one another by eighths
/// from a blank to a full cell, and no two marks of the plain ramp are alike.
pub proof fn glyphs_tell_levels_apart(m: int, n: int)
    requires
        0 <= m < n,
    ensures
        n <= 8 ==> eighth(m) != eighth(n),
        1 <= n <= 8 ==> eighth(n) as int == 0x2580 + n,
        eighth(0) == ' ',
        n <= 4 ==> ramp(m) != ramp(n),
        ramp(0) == '_' && ramp(4) == '#',
{
}

/// The dots of a braille column: each level adds one, from below or from above,
/// and the dots filled from below and the rest filled from above make up the
/// whole column and meet nowhere.
pub proof fn braille_columns_are_filled_dot_by_dot(right: bool, n: int)
    requires
        0 <= n <= 4,
    ensures
        dots_up(right, 0) == 0 && dots_down(right, 0) == 0,
        dots_up(false, 4) == 0x47 && dots_up(true, 4) == 0xb8,
        dots_up(right, n) + dots_down(right, 4 - n) == dots_up(right, 4),
        n < 4 ==> is_one_dot(dots_up(right, n + 1) - dots_up(right, n)),
        n < 4 ==> is_one_dot(dots_down(right, n + 1) - dots_down(right, n)),
        dots_up(right, 1) == (if right {
            0x80int
        } else {
            0x40
        }),
        0 < n < 4 ==> dots_up(right, n) > dots_down(right, n),
{
}

/// A single dot of a braille cell.
pub open spec fn is_one_dot(mask: int) -> bool {
    ||| mask == 0x01
    ||| mask == 0x02
    ||| mask == 0x04
    ||| mask == 0x08
    ||| mask == 0x10
    ||| mask == 0x20
    ||| mask == 0x40
    ||| mask == 0x80
}

/// Where a cell of the waveform stands: in the column of its sample, the upper
/// half above the midline and the lower below it, each row further out; and the
/// two halves make up the whole height.
pub proof fn cells_stand_on_either_side_of_the_midline(
    area: Rect,
    data: Seq<Option<u64>>,
    lower: bool,
    cy: int,
    cx: int,
    style: GraphStyle,
)
    requires
        area.x + area.width <= 0xffff,
        area.y + area.height <= 0xffff,
        area.height >= 2,
        0 <= cx < area.width,
        0 <= cy,
        cy < (if lower {
            (area.height + 1) / 2
        } else {
            area.height as int / 2
        }),
    ensures
        wave_cell(area, data, lower, cy, cx, style) matches Some(c) ==> {
            &&& c.x == area.x + cx
            &&& !lower ==> c.y + 1 + cy == area.y + area.height as int / 2
            &&& lower ==> c.y == area.y + area.height as int / 2 + cy
            &&& c.lower == lower
            &&& c.cy == cy
            &&& c.rows == (if lower {
                (area.height + 1) / 2
            } else {
                area.height as int / 2
            })
        },
{
}

/// Whatever the glyphs: a column of the waveform that a higher sample draws
/// reaches at least as far from the midline; an idle one, or one that could not
/// be read, is the line alone; a busy one fills its half, and only one that
/// could not be read is drawn as unknown.
pub proof fn columns_rise_with_the_sample(
    area: Rect,
    low: Seq<Option<u64>>,
    high: Seq<Option<u64>>,
    lower: bool,
    cy: int,
    cx: int,
    style: GraphStyle,
    a: u64,
    b: u64,
)
    requires
        area.height >= 2,
        0 <= cx < area.width,
        0 <= cy,
        cy < (if lower {
            (area.height + 1) / 2
        } else {
            area.height as int / 2
        }),
        a <= b,
        style == GraphStyle::Braille ==> sample_at(low, cx * 2, area.width * 2) == Some(a)
            && sample_at(low, cx * 2 + 1, area.width * 2) == Some(a) && sample_at(
            high,
            cx * 2,
            area.width * 2,
        ) == Some(b) && sample_at(high, cx * 2 + 1, area.width * 2) == Some(b),
        style != GraphStyle::Braille ==> sample_at(low, cx, area.width as int) == Some(a)
            && sample_at(high, cx, area.width as int) == Some(b),
    ensures
        wave_cell(area, low, lower, cy, cx, style) is Some ==> wave_cell(
            area,
            high,
            lower,
            cy,
            cx,
            style,
        ) is Some,
        a == 0 ==> (wave_cell(area, low, lower, cy, cx, style) is Some <==> cy == 0),
        b >= 100 ==> (wave_cell(area, high, lower, cy, cx, style) matches Some(c) && (c.ch == (
        match style {
            GraphStyle::Braille => '⣿',
            GraphStyle::Block => '█',
            GraphStyle::Ascii => '#',
        }) && !c.inverted)),
        wave_cell(area, high, lower, cy, cx, style) matches Some(c) ==> !c.unknown,
{
    let unit: int = if style == GraphStyle::Block {
        8
    } else {
        4
    };
    let rows = if lower {
        area.height - area.height / 2
    } else {
        area.height as int / 2
    };
    graphs_rise_with_the_sample(a, b, rows, unit);
    let x = filled(Some(a), rows, unit);
    let y = filled(Some(b), rows, unit);
    columns_fill_from_the_midline(x, cy, 0, unit);
    columns_fill_from_the_midline(y, cy, 0, unit);
    assert(cy >= 1 ==> cy * unit >= unit) by (nonlinear_arith)
        requires
            unit >= 1,
    ;
    assert(cy == 0 ==> cy * unit == 0) by (nonlinear_arith);
    assert(rows * unit - cy * unit >= unit) by (nonlinear_arith)
        requires
            cy < rows,
            unit >= 1,
    ;
}

/// A sample that could not be read draws the line alone, and says so.
pub proof fn unread_samples_show_as_unknown(
    area: Rect,
    data: Seq<Option<u64>>,
    lower: bool,
    cy: int,
    cx: int,
    style: GraphStyle,
)
    requires
        area.height >= 2,
        0 <= cx < area.width,
        0 <= cy,
        style == GraphStyle::Braille ==> sample_at(data, cx * 2, area.width * 2) is None
            && sample_at(data, cx * 2 + 1, area.width * 2) is None,
        style != GraphStyle::Braille ==> sample_at(data, cx, area.width as int) is None,
    ensures
        wave_cell(area, data, lower, cy, cx, style) is Some <==> cy == 0,
        wave_cell(area, data, lower, cy, cx, style) matches Some(c) ==> c.unknown,
{
    let unit: int = if style == GraphStyle::Block {
        8
    } else {
        4
    };
    let rows = if lower {
        area.height - area.height / 2
    } else {
        area.height as int / 2
    };
    graphs_rise_with_the_sample(0, 0, rows, unit);
    columns_fill_from_the_midline(1, cy, 0, unit);
    assert(cy >= 1 ==> cy * unit >= unit) by (nonlinear_arith)
        requires
            unit >= 1,
    ;
    assert(cy == 0 ==> cy * unit == 0) by (nonlinear_arith);
}

/// A partly filled cell of a block graph shows what is filled above the
/// midline, and below it, turned over, what is left.
pub proof fn blocks_show_what_is_filled(
    data: Seq<Option<u64>>,
    cx: int,
    cols: int,
    rows: int,
    cy: int,
    n: int,
)
    requires
        0 < n < 8,
        in_row(filled(sample_at(data, cx, cols), rows, 8), cy, 8) == n,
    ensures
        solid_cell(data, cx, cols, rows, cy, false, GraphStyle::Block) matches Some((ch, inverted))
            && ch as int == 0x2580 + n && !inverted,
        solid_cell(data, cx, cols, rows, cy, true, GraphStyle::Block) matches Some((ch, inverted))
            && ch as int == 0x2588 - n && inverted,
{
}

/// A sparkline of one value all over: the higher the value the higher its
/// marks, a full one at the maximum and above, and a blank only where nothing
/// could be read.
pub proof fn sparklines_rise_with_the_value(
    low: Seq<Option<u64>>,
    high: Seq<Option<u64>>,
    max: u64,
    c: int,
    a: u64,
    b: u64,
)
    requires
        0 <= c < 5,
        a <= b,
        max > 0,
        sample_at(low, c, 5) == Some(a),
        sample_at(high, c, 5) == Some(b),
    ensures
        spark(low, max, GraphStyle::Block).len() == 5,
        spark(low, max, GraphStyle::Block)[c] as int <= spark(high, max, GraphStyle::Block)[c] as int,
        spark(low, max, GraphStyle::Block)[c] != ' ',
        a == 0 ==> spark(low, max, GraphStyle::Block)[c] == '▁' && spark(
            low,
            max,
            GraphStyle::Ascii,
        )[c] == '_',
        b >= max ==> spark(high, max, GraphStyle::Block)[c] == '█' && spark(
            high,
            max,
            GraphStyle::Ascii,
        )[c] == '#',
{
    levels_rise_with_the_value(a, b, max, 8, 1);
    levels_rise_with_the_value(a, b, max, 4, 0);
}

/// A blank in a sparkline is a sample that could not be read.
pub proof fn sparklines_leave_unread_samples_blank(data: Seq<Option<u64>>, max: u64, c: int)
    requires
        0 <= c < 5,
        sample_at(data, c, 5) is None,
    ensures
        spark(data, max, GraphStyle::Block)[c] == ' ',
        spark(data, max, GraphStyle::Ascii)[c] == ' ',
{
}

/// A braille sparkline shows two samples a cell, the older one left: each adds
/// its own column of dots, all of them at the maximum and above, one at
/// nothing, and none where it could not be read.
pub proof fn braille_sparklines_show_two_samples_a_cell(
    data: Seq<Option<u64>>,
    max: u64,
    c: int,
)
    requires
        0 <= c < 5,
        max > 0,
    ensures
        ({
            let older = sample_at(data, 2 * c, 10);
            let newer = sample_at(data, 2 * c + 1, 10);
            let cell = spark(data, max, GraphStyle::Braille)[c] as int - 0x2800;
            &&& older is None && newer is None ==> cell == 0
            &&& older == Some(0u64) && newer is None ==> cell == 0x40
            &&& older is None && newer == Some(0u64) ==> cell == 0x80
            &&& older == Some(max) && newer is None ==> cell == 0x47
            &&& older is None && newer == Some(max) ==> cell == 0xb8
            &&& older == Some(max) && newer == Some(max) ==> cell == 0xff
        }),
{
    levels_rise_with_the_value(0, max, max, 4, 1);
}

/// A sparkline's marks are steps of its own maximum: a value between nothing and
/// the maximum takes just as many eighths of a cell, and as many quarters in the
/// other glyphs, as are needed to reach it. Without a maximum anything fills its
/// cell.
pub proof fn sparklines_are_scaled_to_their_maximum(
    data: Seq<Option<u64>>,
    max: u64,
    c: int,
    v: u64,
    n: int,
)
    requires
        0 <= c < 5,
        0 < v <= max,
        (n - 1) * max < v * 4 <= n * max,
    ensures
        sample_at(data, c, 5) == Some(v) ==> {
            let k = spark(data, max, GraphStyle::Block)[c] as int - 0x2580;
            (k - 1) * max < v * 8 <= k * max
        },
        sample_at(data, c, 5) == Some(v) ==> spark(data, max, GraphStyle::Ascii)[c] == ramp(n),
        sample_at(data, 2 * c, 10) == Some(v) && sample_at(data, 2 * c + 1, 10) is None ==> spark(
            data,
            max,
            GraphStyle::Braille,
        )[c] == braille(dots_up(false, n), dots_up(true, 0)),
        sample_at(data, c, 5) == Some(v) ==> spark(data, 0, GraphStyle::Block)[c] == '█',
{
    levels_rise_with_the_value(v, v, max, 8, 1);
    levels_rise_with_the_value(v, v, max, 4, 0);
    levels_rise_with_the_value(v, v, max, 4, 1);
    levels_rise_with_the_value(v, v, 1, 8, 1);
    let m = max as int;
    let q = v as int * 4;
    let a = level(v, max, 4, 0);
    let b = level(v, max, 4, 1);
    assert(a == n) by (nonlinear_arith)
        requires
            (a - 1) * m < q <= a * m,
            (n - 1) * m < q <= n * m,
            m > 0,
    ;
    assert(b == n) by (nonlinear_arith)
        requires
            (b - 1) * m < q <= b * m,
            (n - 1) * m < q <= n * m,
            m > 0,
    ;
    let k = level(v, max, 8, 1);
    assert(1 <= k <= 8);
    glyphs_tell_levels_apart(0, k);
}

} // verus!
