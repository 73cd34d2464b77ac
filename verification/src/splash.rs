//! The startup banner: its size, the path the cursor sweeps over it, and what a
//! frame of the sweep looks like.
use vstd::prelude::*;
use crate::app::Rect;
use crate::text::{char_is_space, chars_of, is_space, lemma_split_nonempty, lines, lines_of, split, texts};
use crate::theme::{colored, paint, Rgb, Style, UiTheme};

verus! {

/// The banner.
pub const ART: &'static str = " ██████  ██████  ██   ██ ██████\n██       ██   ██ ██   ██ ██   ██\n██   ███ ██████  ██   ██ ██████\n██    ██ ██      ██   ██ ██   ██\n ██████  ██       █████  ██   ██\n";

/// The longest of some lines.
pub open spec fn widest(rows: Seq<Seq<char>>) -> nat
    decreases rows.len(),
{
    if rows.len() == 0 {
        0
    } else {
        let rest = widest(rows.drop_last());
        if rows.last().len() > rest {
            rows.last().len()
        } else {
            rest
        }
    }
}

/// Rows and columns of a banner.
pub fn art_dims(art: &str) -> (d: (usize, usize))
    ensures
        d.0 == lines(art@).len(),
        d.1 == widest(lines(art@)),
{
    let rows = lines_of(&chars_of(art));
    let ghost all = texts(rows@);
    let mut cols: usize = 0;
    let mut i: usize = 0;
    assert(all.take(0) =~= Seq::<Seq<char>>::empty());
    while i < rows.len()
        invariant
            i <= rows.len(),
            all == texts(rows@),
            cols == widest(all.take(i as int)),
        decreases rows.len() - i,
    {
        assert(all.take(i + 1).drop_last() =~= all.take(i as int));
        assert(all[i as int] == rows@[i as int]@);
        if rows[i].len() > cols {
            cols = rows[i].len();
        }
        i = i + 1;
    }
    assert(all.take(i as int) =~= all);
    (rows.len(), cols)
}

/// The lines of `s`, carriage returns and all.
pub open spec fn raw_lines(s: Seq<char>) -> Seq<Seq<char>> {
    let pieces = split(s, '\n');
    if pieces.last().len() == 0 {
        pieces.drop_last()
    } else {
        pieces
    }
}

/// An upper bound of a banner's size, from one walk over it: a carriage return
/// counts as a column.
pub fn art_bounds(art: &str) -> (d: (usize, usize))
    ensures
        d.0 == raw_lines(art@).len(),
        d.1 == widest(raw_lines(art@)),
{
    let cs = chars_of(art);
    let n: usize = cs.len();
    let mut rows: usize = 0;
    let mut cols: usize = 0;
    let mut line: usize = 0;
    let mut i: usize = 0;
    assert(cs@.take(0) =~= Seq::<char>::empty());
    assert(split(cs@.take(0), '\n').drop_last() =~= Seq::<Seq<char>>::empty());
    while i < n
        invariant
            i <= n,
            n == cs@.len(),
            rows + line <= i,
            split(cs@.take(i as int), '\n').len() >= 1,
            rows == split(cs@.take(i as int), '\n').len() - 1,
            line == split(cs@.take(i as int), '\n').last().len(),
            cols == widest(split(cs@.take(i as int), '\n').drop_last()),
        decreases n - i,
    {
        let ghost pieces = split(cs@.take(i as int), '\n');
        let ghost next = split(cs@.take(i + 1), '\n');
        assert(cs@.take(i + 1).drop_last() =~= cs@.take(i as int));
        if cs[i] == '\n' {
            assert(next.drop_last() =~= pieces);
            rows = rows + 1;
            if line > cols {
                cols = line;
            }
            line = 0;
        } else {
            assert(next.drop_last() =~= pieces.drop_last());
            line = line + 1;
        }
        i = i + 1;
    }
    assert(cs@.take(i as int) =~= art@);
    if line > 0 {
        rows = rows + 1;
        if line > cols {
            cols = line;
        }
    }
    (rows, cols)
}

proof fn lemma_widest_pointwise(a: Seq<Seq<char>>, b: Seq<Seq<char>>)
    requires
        a.len() == b.len(),
        forall|i: int| 0 <= i < a.len() ==> (#[trigger] a[i]).len() <= b[i].len(),
    ensures
        widest(a) <= widest(b),
    decreases a.len(),
{
    if a.len() > 0 {
        assert forall|i: int| 0 <= i < a.drop_last().len() implies (#[trigger] a.drop_last()[i]).len()
            <= b.drop_last()[i].len() by {
            assert(a.drop_last()[i] == a[i]);
        }
        lemma_widest_pointwise(a.drop_last(), b.drop_last());
        assert(a[a.len() - 1].len() <= b[a.len() - 1].len());
    }
}

/// The bound is one: as many rows as the banner has, and no fewer columns.
pub proof fn bounds_cover_the_banner(art: Seq<char>)
    ensures
        raw_lines(art).len() == lines(art).len(),
        widest(raw_lines(art)) >= widest(lines(art)),
{
    lemma_split_nonempty(art, '\n');
    let a = lines(art);
    let b = raw_lines(art);
    assert(a.len() == b.len());
    assert forall|i: int| 0 <= i < a.len() implies (#[trigger] a[i]).len() <= b[i].len() by {}
    lemma_widest_pointwise(a, b);
}

/// Every cell of the banner has coordinates of one byte.
pub open spec fn fits(art: Seq<char>) -> bool {
    lines(art).len() <= 255 && widest(lines(art)) <= 255
}

/// The glyph cells of the first `n` columns of a line, from left to right.
pub open spec fn row_cells(line: Seq<char>, row: int, n: int) -> Seq<(u8, u8, char)>
    decreases n,
{
    if n <= 0 {
        Seq::empty()
    } else {
        let rest = row_cells(line, row, n - 1);
        if is_space(line[n - 1]) {
            rest
        } else {
            rest.push((row as u8, (n - 1) as u8, line[n - 1]))
        }
    }
}

/// The glyph cells of the first `n` lines, from top to bottom.
pub open spec fn cells(rows: Seq<Seq<char>>, n: int) -> Seq<(u8, u8, char)>
    decreases n,
{
    if n <= 0 {
        Seq::empty()
    } else {
        cells(rows, n - 1) + row_cells(rows[n - 1], n - 1, rows[n - 1].len() as int)
    }
}

proof fn lemma_widest(rows: Seq<Seq<char>>, i: int)
    requires
        0 <= i < rows.len(),
    ensures
        rows[i].len() <= widest(rows),
    decreases rows.len(),
{
    if i < rows.len() - 1 {
        assert(rows.drop_last()[i] == rows[i]);
        lemma_widest(rows.drop_last(), i);
    }
}

/// The cursor path: the glyph cells, left to right and top to bottom. A banner
/// with a cell beyond one byte has none, since the path could not name it.
pub fn build_path(art: &str) -> (path: Option<Vec<(u8, u8, char)>>)
    ensures
        match path {
            Some(p) => fits(art@) && p@ == cells(lines(art@), lines(art@).len() as int),
            None => !fits(art@),
        },
        path matches Some(p) ==> p@.len() <= 255 * 255,
{
    let (height, width) = art_dims(art);
    if height > 255 || width > 255 {
        return None;
    }
    let rows = lines_of(&chars_of(art));
    let ghost all = texts(rows@);
    let mut path: Vec<(u8, u8, char)> = Vec::new();
    let mut r: usize = 0;
    while r < rows.len()
        invariant
            r <= rows.len() <= 255,
            all == texts(rows@),
            widest(all) <= 255,
            path@ == cells(all, r as int),
        decreases rows.len() - r,
    {
        let line = &rows[r];
        let ghost before = path@;
        proof {
            assert(all[r as int] == line@);
            lemma_widest(all, r as int);
        }
        let mut c: usize = 0;
        assert(path@ =~= before + row_cells(line@, r as int, 0));
        while c < line.len()
            invariant
                c <= line.len() <= 255,
                r < 255,
                path@ == before + row_cells(line@, r as int, c as int),
            decreases line.len() - c,
        {
            let ch = line[c];
            let ghost was = path@;
            if !char_is_space(ch) {
                path.push((r as u8, c as u8, ch));
                assert(path@ =~= before + row_cells(line@, r as int, c + 1));
            } else {
                assert(path@ =~= before + row_cells(line@, r as int, c + 1));
            }
            c = c + 1;
        }
        r = r + 1;
    }
    proof {
        lemma_cells_count(all, rows@.len() as int);
    }
    Some(path)
}

proof fn lemma_row_cells_count(line: Seq<char>, row: int, n: int)
    requires
        0 <= n,
    ensures
        row_cells(line, row, n).len() <= n,
    decreases n,
{
    if n > 0 {
        lemma_row_cells_count(line, row, n - 1);
    }
}

proof fn lemma_cells_count(rows: Seq<Seq<char>>, n: int)
    requires
        0 <= n <= rows.len(),
        widest(rows) <= 255,
    ensures
        cells(rows, n).len() <= n * 255,
    decreases n,
{
    if n > 0 {
        lemma_cells_count(rows, n - 1);
        lemma_widest(rows, n - 1);
        lemma_row_cells_count(rows[n - 1], n - 1, rows[n - 1].len() as int);
    }
}

proof fn lemma_row_cells(line: Seq<char>, row: int, n: int)
    requires
        0 <= n <= line.len() <= 255,
        0 <= row < 256,
    ensures
        forall|k: int|
            0 <= k < row_cells(line, row, n).len() ==> (#[trigger] row_cells(line, row, n)[k]).0
                == row && row_cells(line, row, n)[k].1 < n && line[row_cells(
                line,
                row,
                n,
            )[k].1 as int] == row_cells(line, row, n)[k].2,
    decreases n,
{
    if n > 0 {
        lemma_row_cells(line, row, n - 1);
        let rest = row_cells(line, row, n - 1);
        let all = row_cells(line, row, n);
        assert forall|k: int| 0 <= k < all.len() implies (#[trigger] all[k]).0 == row && all[k].1 < n
            && line[all[k].1 as int] == all[k].2 by {
            if k < rest.len() {
                assert(all[k] == rest[k]);
            }
        }
    }
}

proof fn lemma_cells(rows: Seq<Seq<char>>, n: int)
    requires
        0 <= n <= rows.len() <= 255,
        widest(rows) <= 255,
    ensures
        forall|k: int|
            0 <= k < cells(rows, n).len() ==> (#[trigger] cells(rows, n)[k]).0 < n && cells(
                rows,
                n,
            )[k].1 < rows[cells(rows, n)[k].0 as int].len() && rows[cells(
                rows,
                n,
            )[k].0 as int][cells(rows, n)[k].1 as int] == cells(rows, n)[k].2,
    decreases n,
{
    if n > 0 {
        lemma_cells(rows, n - 1);
        lemma_widest(rows, n - 1);
        let line = rows[n - 1];
        lemma_row_cells(line, n - 1, line.len() as int);
        let rest = cells(rows, n - 1);
        let last = row_cells(line, n - 1, line.len() as int);
        let all = cells(rows, n);
        assert forall|k: int| 0 <= k < all.len() implies (#[trigger] all[k]).0 < n && all[k].1
            < rows[all[k].0 as int].len() && rows[all[k].0 as int][all[k].1 as int] == all[k].2 by {
            if k < rest.len() {
                assert(all[k] == rest[k]);
            } else {
                assert(all[k] == last[k - rest.len()]);
            }
        }
    }
}

/// Every coordinate of a path names the very cell it was read from: squeezing
/// it into a byte lost nothing.
pub proof fn the_path_names_its_own_cells(art: Seq<char>, k: int)
    requires
        fits(art),
        0 <= k < cells(lines(art), lines(art).len() as int).len(),
    ensures
        ({
            let (r, c, ch) = cells(lines(art), lines(art).len() as int)[k];
            r < lines(art).len() && c < lines(art)[r as int].len() && lines(art)[r as int][c as int]
                == ch
        }),
{
    lemma_cells(lines(art), lines(art).len() as int);
}

// ---------------------------------------------------------------- frames

/// What a cell of a frame is.
#[derive(Clone, Copy, PartialEq, Eq, Structural, Debug)]
pub enum CellRole {
    /// A cell of the banner.
    Art,
    /// Where the cursor was, so many ticks before the last one.
    Trail(u8),
    Cursor,
}

/// A cell of a frame.
#[derive(Clone, Copy, PartialEq, Eq, Structural, Debug)]
pub struct SplashCell {
    pub x: u16,
    pub y: u16,
    pub ch: char,
    pub role: CellRole,
}

/// A cell as it is painted.
#[derive(Clone, Copy, PartialEq, Eq, Structural, Debug)]
pub struct PaintedCell {
    pub x: u16,
    pub y: u16,
    pub ch: char,
    pub style: Style,
}

/// A frame: its cells in painting order, and the row of the version line where
/// there is room for it.
#[derive(Debug)]
pub struct SplashView {
    pub cells: Vec<PaintedCell>,
    pub version_row: Option<Rect>,
}

/// Where something of `part` cells starts in the middle of `whole`.
pub open spec fn middle(whole: int, part: int) -> int {
    if whole < part {
        0
    } else {
        (whole - part) / 2
    }
}

/// The cells of a line, blanks and all, from `x` on.
pub open spec fn line_cells(line: Seq<char>, x: int, y: int) -> Seq<SplashCell> {
    Seq::new(
        line.len(),
        |c: int| SplashCell { x: (x + c) as u16, y: y as u16, ch: line[c], role: CellRole::Art },
    )
}

/// The cells of the first `n` lines.
pub open spec fn art_cells(rows: Seq<Seq<char>>, n: int, x: int, y: int) -> Seq<SplashCell>
    decreases n,
{
    if n <= 0 {
        Seq::empty()
    } else {
        art_cells(rows, n - 1, x, y) + line_cells(rows[n - 1], x, y + n - 1)
    }
}

/// The place on a path of `n` cells that the cursor had `age` ticks before
/// `tick`; the path starts over at its end.
pub open spec fn path_place(n: int, tick: int, age: int) -> int {
    if tick % n + n < age {
        0
    } else {
        (tick % n + n - age) % n
    }
}

/// The cell that the cursor had `age` ticks before `tick`.
pub open spec fn trail_cell(
    path: Seq<(u8, u8, char)>,
    tick: int,
    age: int,
    x: int,
    y: int,
) -> SplashCell {
    let cell = path[path_place(path.len() as int, tick, age)];
    SplashCell {
        x: (x + cell.1) as u16,
        y: (y + cell.0) as u16,
        ch: cell.2,
        role: if age == 0 {
            CellRole::Cursor
        } else {
            CellRole::Trail((age - 1) as u8)
        },
    }
}

/// The six cells of the trail, from the oldest on, and the cursor.
pub open spec fn trail_cells(path: Seq<(u8, u8, char)>, tick: int, x: int, y: int) -> Seq<
    SplashCell,
> {
    if path.len() == 0 {
        Seq::empty()
    } else {
        Seq::new(7, |k: int| trail_cell(path, tick, 6 - k, x, y))
    }
}

/// The cells of a frame, in painting order: the banner, then the sweep over it.
pub open spec fn frame_cells(
    art: Seq<char>,
    path: Seq<(u8, u8, char)>,
    tick: int,
    x: int,
    y: int,
) -> Seq<SplashCell> {
    art_cells(lines(art), lines(art).len() as int, x, y) + trail_cells(path, tick, x, y)
}

/// Calls hjkl-splash's `Layout::centered`. Claimed: where the banner's top left
/// corner goes, with four rows kept free below it.
#[verifier::external_body]
fn centered(width: u16, height: u16, rows: u16, cols: u16) -> (at: (u16, u16))
    requires
        rows + 4 <= 0xffff,
    ensures
        at.0 == middle(width as int, cols as int),
        at.1 == middle(height as int, rows + 4),
{
    let l = hjkl_splash::Layout::centered(width, height, rows, cols);
    (l.origin_x, l.origin_y)
}

/// Calls hjkl-splash's `Splash::cells`, on a splash of `Splash::fixed_tick`.
/// Claimed: every cell of the banner, then a trail of six cells on the path
/// from the oldest on, then the cursor.
#[verifier::external_body]
fn sweep(
    art: &str,
    path: &Vec<(u8, u8, char)>,
    tick: u64,
    at: (u16, u16),
    rows: u16,
    cols: u16,
) -> (out: Vec<SplashCell>)
    requires
        fits(art@),
        rows == lines(art@).len(),
        path@.len() <= 0xffff,
        tick <= usize::MAX,
        at.0 <= 0x8000,
        at.1 <= 0x8000,
    ensures
        out@ == frame_cells(art@, path@, tick as int, at.0 as int, at.1 as int),
{
    let layout = hjkl_splash::Layout { origin_x: at.0, origin_y: at.1, rows, cols };
    let splash = hjkl_splash::Splash::fixed_tick(art, path, tick);
    let role = |k| match k {
        hjkl_splash::CellKind::Art => CellRole::Art,
        hjkl_splash::CellKind::Trail { age } => CellRole::Trail(age),
        hjkl_splash::CellKind::Cursor => CellRole::Cursor,
    };
    let cells = splash.cells(layout);
    cells.map(|c| SplashCell { x: c.x, y: c.y, ch: c.ch, role: role(c.kind) }).collect()
}

/// The color of a trail by its age.
pub open spec fn trail_ramp(age: u8) -> Rgb {
    if age == 0 {
        (0xe5, 0xe9, 0xf0)
    } else if age == 1 {
        (0xa0, 0xa8, 0xb8)
    } else if age == 2 {
        (0x60, 0x68, 0x78)
    } else if age == 3 {
        (0x38, 0x40, 0x50)
    } else if age == 4 {
        (0x20, 0x26, 0x32)
    } else {
        (0x10, 0x14, 0x1c)
    }
}

/// Calls hjkl-splash's `default_trail_color`. Claimed: the ramp's color of that
/// age, the last one from there on.
#[verifier::external_body]
fn trail_color(age: u8) -> (c: Rgb)
    ensures
        c == trail_ramp(age),
{
    let hjkl_splash::Rgb(r, g, b) = hjkl_splash::default_trail_color(age);
    (r, g, b)
}

/// The style of a cell: the banner in the accent color, the trail in the ramp's
/// as far as the terminal has it, the cursor bold.
pub open spec fn cell_look(t: UiTheme, role: CellRole) -> Style {
    match role {
        CellRole::Art => Style {
            fg: Some(t.accent),
            bg: None,
            bold: false,
            dim: false,
            reversed: false,
        },
        CellRole::Trail(age) => colored(t.mode, trail_ramp(age)),
        CellRole::Cursor => Style {
            fg: Some(t.fg),
            bg: None,
            bold: true,
            dim: false,
            reversed: false,
        },
    }
}

fn look_of(t: &UiTheme, role: CellRole) -> (s: Style)
    ensures
        s == cell_look(*t, role),
{
    let fg = match role {
        CellRole::Art => t.accent,
        CellRole::Trail(age) => paint(t.mode, trail_color(age)),
        CellRole::Cursor => t.fg,
    };
    Style {
        fg: Some(fg),
        bg: None,
        bold: role == CellRole::Cursor,
        dim: false,
        reversed: false,
    }
}

/// The cells that lie within an area's size, moved there and painted.
pub open spec fn painted_cells(cells: Seq<SplashCell>, area: Rect, t: UiTheme) -> Seq<PaintedCell>
    decreases cells.len(),
{
    if cells.len() == 0 {
        Seq::empty()
    } else {
        let head = painted_cells(cells.drop_last(), area, t);
        let c = cells.last();
        if c.x >= area.width || c.y >= area.height {
            head
        } else {
            head.push(
                PaintedCell {
                    x: (area.x + c.x) as u16,
                    y: (area.y + c.y) as u16,
                    ch: c.ch,
                    style: cell_look(t, c.role),
                },
            )
        }
    }
}

/// The row of the version line: the second one below a banner of `rows` that
/// starts at `y`.
pub open spec fn version_row(area: Rect, y: int, rows: int) -> Option<Rect> {
    if y + rows + 1 < area.height {
        Some(
            Rect {
                x: area.x,
                y: (area.y + y + rows + 1) as u16,
                width: area.width,
                height: 1,
            },
        )
    } else {
        None
    }
}

/// The frame of a banner at a tick, in the middle of an area. A banner with a
/// cell beyond one byte has none.
pub fn render(
    art: &str,
    path: &Vec<(u8, u8, char)>,
    tick: u64,
    area: Rect,
    t: &UiTheme,
) -> (view: Option<SplashView>)
    requires
        path@.len() <= 0xffff,
        area.x + area.width <= 0xffff,
        area.y + area.height <= 0xffff,
    ensures
        view is Some <==> fits(art@),
        view matches Some(v) ==> {
            let rows = lines(art@).len() as int;
            let x = middle(area.width as int, widest(lines(art@)) as int);
            let y = middle(area.height as int, rows + 4);
            &&& v.cells@ == painted_cells(
                frame_cells(art@, path@, tick as int, x, y),
                area,
                *t,
            )
            &&& v.version_row == version_row(area, y, rows)
        },
{
    let (height, width) = art_dims(art);
    if height > 255 || width > 255 {
        return None;
    }
    let rows: u16 = height as u16;
    let cols: u16 = width as u16;
    let at = centered(area.width, area.height, rows, cols);
    let around: u64 = if path.len() > 0 {
        tick % (path.len() as u64)
    } else {
        0
    };
    let all = sweep(art, path, around, at, rows, cols);
    proof {
        if path@.len() > 0 {
            let n = path@.len() as int;
            vstd::arithmetic::div_mod::lemma_mod_twice(tick as int, n);
            assert(around as int % n == tick as int % n);
        }
        assert(trail_cells(path@, around as int, at.0 as int, at.1 as int) =~= trail_cells(
            path@,
            tick as int,
            at.0 as int,
            at.1 as int,
        ));
    }
    let mut cells: Vec<PaintedCell> = Vec::new();
    let mut i: usize = 0;
    assert(all@.take(0) =~= Seq::<SplashCell>::empty());
    while i < all.len()
        invariant
            i <= all.len(),
            area.x + area.width <= 0xffff,
            area.y + area.height <= 0xffff,
            cells@ == painted_cells(all@.take(i as int), area, *t),
        decreases all.len() - i,
    {
        let c = all[i];
        assert(all@.take(i + 1).drop_last() =~= all@.take(i as int));
        if c.x < area.width && c.y < area.height {
            cells.push(
                PaintedCell {
                    x: area.x + c.x,
                    y: area.y + c.y,
                    ch: c.ch,
                    style: look_of(t, c.role),
                },
            );
        }
        i = i + 1;
    }
    assert(all@.take(i as int) =~= all@);
    let below: u16 = at.1 + rows + 1;
    let version_row = if below < area.height {
        Some(Rect { x: area.x, y: area.y + below, width: area.width, height: 1 })
    } else {
        None
    };
    Some(SplashView { cells, version_row })
}

/// Nothing of a frame is painted outside of its area.
pub proof fn frames_stay_in_their_area(cells: Seq<SplashCell>, area: Rect, t: UiTheme)
    requires
        area.x + area.width <= 0xffff,
        area.y + area.height <= 0xffff,
    ensures
        forall|k: int|
            #![trigger painted_cells(cells, area, t)[k]]
            0 <= k < painted_cells(cells, area, t).len() ==> {
                let c = painted_cells(cells, area, t)[k];
                area.x <= c.x < area.x + area.width && area.y <= c.y < area.y + area.height
            },
    decreases cells.len(),
{
    if cells.len() > 0 {
        let head = painted_cells(cells.drop_last(), area, t);
        let all = painted_cells(cells, area, t);
        frames_stay_in_their_area(cells.drop_last(), area, t);
        assert forall|k: int| #![trigger all[k]] 0 <= k < all.len() implies area.x <= all[k].x
            < area.x + area.width && area.y <= all[k].y < area.y + area.height by {
            if k < head.len() {
                assert(all[k] == head[k]);
            }
        }
    }
}

/// The cursor walks the path: painted last, it stands at tick after tick on one
/// cell after the other, and starts over at the end.
pub proof fn the_cursor_walks_the_path(
    art: Seq<char>,
    path: Seq<(u8, u8, char)>,
    tick: int,
    x: int,
    y: int,
)
    requires
        path.len() > 0,
        tick >= 0,
    ensures
        ({
            let cell = path[tick % (path.len() as int)];
            frame_cells(art, path, tick, x, y).last() == (SplashCell {
                x: (x + cell.1) as u16,
                y: (y + cell.0) as u16,
                ch: cell.2,
                role: CellRole::Cursor,
            })
        }),
{
    let n = path.len() as int;
    vstd::arithmetic::div_mod::lemma_mod_bound(tick, n);
    vstd::arithmetic::div_mod::lemma_mod_add_multiples_vanish(tick % n, n);
    vstd::arithmetic::div_mod::lemma_mod_twice(tick, n);
    assert(path_place(n, tick, 0) == tick % n);
    let trail = trail_cells(path, tick, x, y);
    assert(trail.len() == 7 && trail[6] == trail_cell(path, tick, 0, x, y));
    assert(frame_cells(art, path, tick, x, y).last() == trail[6]);
}

/// Every glyph of a line is on the path, where it stands, and no blank is.
pub proof fn the_path_visits_every_glyph(line: Seq<char>, row: int, n: int, c: int)
    requires
        0 <= c < n <= line.len() <= 255,
        0 <= row < 256,
    ensures
        !is_space(line[c]) ==> row_cells(line, row, n).contains((row as u8, c as u8, line[c])),
        forall|k: int|
            0 <= k < row_cells(line, row, n).len() ==> !is_space(
                (#[trigger] row_cells(line, row, n)[k]).2,
            ),
    decreases n,
{
    let rest = row_cells(line, row, n - 1);
    let all = row_cells(line, row, n);
    if c < n - 1 {
        the_path_visits_every_glyph(line, row, n - 1, c);
        let x = (row as u8, c as u8, line[c]);
        if rest.contains(x) {
            let w = choose|w: int| 0 <= w < rest.len() && rest[w] == x;
            assert(all[w] == x);
        }
    } else {
        if n > 1 {
            the_path_visits_every_glyph(line, row, n - 1, 0);
        }
        if !is_space(line[c]) {
            assert(all[rest.len() as int] == (row as u8, c as u8, line[c]));
        }
    }
    assert forall|k: int| 0 <= k < all.len() implies !is_space((#[trigger] all[k]).2) by {
        if k < rest.len() {
            assert(all[k] == rest[k]);
        }
    }
}

/// A banner is as wide as its longest line.
pub proof fn a_banner_is_as_wide_as_its_longest_line(rows: Seq<Seq<char>>)
    ensures
        forall|k: int| 0 <= k < rows.len() ==> (#[trigger] rows[k]).len() <= widest(rows),
        rows.len() > 0 ==> exists|k: int|
            0 <= k < rows.len() && (#[trigger] rows[k]).len() == widest(rows),
    decreases rows.len(),
{
    assert forall|k: int| 0 <= k < rows.len() implies (#[trigger] rows[k]).len() <= widest(rows) by {
        lemma_widest(rows, k);
    }
    if rows.len() > 0 {
        let init = rows.drop_last();
        a_banner_is_as_wide_as_its_longest_line(init);
        let n = rows.len() - 1;
        assert(rows[n] == rows.last());
        if rows[n].len() != widest(rows) && init.len() > 0 {
            let k = choose|k: int| 0 <= k < init.len() && (#[trigger] init[k]).len() == widest(init);
            assert(rows[k].len() == widest(rows));
        }
    }
}

/// A cell that lies within the area is painted there, as it is and in the style
/// of what it is.
pub proof fn what_lies_within_is_painted(cells: Seq<SplashCell>, area: Rect, t: UiTheme, k: int)
    requires
        0 <= k < cells.len(),
        cells[k].x < area.width,
        cells[k].y < area.height,
        area.x + area.width <= 0xffff,
        area.y + area.height <= 0xffff,
    ensures
        painted_cells(cells, area, t).contains(
            PaintedCell {
                x: (area.x + cells[k].x) as u16,
                y: (area.y + cells[k].y) as u16,
                ch: cells[k].ch,
                style: cell_look(t, cells[k].role),
            },
        ),
    decreases cells.len(),
{
    let init = cells.drop_last();
    let head = painted_cells(init, area, t);
    let all = painted_cells(cells, area, t);
    let x = PaintedCell {
        x: (area.x + cells[k].x) as u16,
        y: (area.y + cells[k].y) as u16,
        ch: cells[k].ch,
        style: cell_look(t, cells[k].role),
    };
    if k < cells.len() - 1 {
        assert(init[k] == cells[k]);
        what_lies_within_is_painted(init, area, t, k);
        let w = choose|w: int| 0 <= w < head.len() && head[w] == x;
        assert(all[w] == x);
    } else {
        assert(all[head.len() as int] == x);
    }
}

/// The cursor alone is bold; banner and cursor have the theme's own colors.
pub proof fn the_cursor_alone_is_bold(t: UiTheme, role: CellRole)
    ensures
        cell_look(t, role).bold <==> role is Cursor,
        cell_look(t, CellRole::Art).fg == Some(t.accent),
        cell_look(t, CellRole::Cursor).fg == Some(t.fg),
{
}

/// The version stands two rows below the banner, inside the area, and nowhere
/// where there is no such row.
pub proof fn the_version_stands_below_the_banner(area: Rect, y: int, rows: int)
    requires
        area.y + area.height <= 0xffff,
        0 <= y,
        0 <= rows,
    ensures
        version_row(area, y, rows) matches Some(r) ==> r.y == area.y + y + rows + 1 && r.y < area.y
            + area.height && r.height == 1 && r.x == area.x && r.width == area.width,
        version_row(area, y, rows) is None <==> area.height <= y + rows + 1,
{
}

} // verus!
