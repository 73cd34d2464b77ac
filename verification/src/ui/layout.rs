//! Where things go: panes, popups, and the windows of lists that overflow.
use vstd::prelude::*;
use crate::app::{edge, App, GraphStyle, Rect};
use crate::text::{chars_of, str_texts};
use crate::ui::graph::samples_per_column;

verus! {

/// Rows of an unfolded card at the least.
pub const CARD_MIN: u16 = 8;

/// The height of one row of a vertical split.
#[derive(Clone, Copy, PartialEq, Eq, Structural, Debug)]
pub enum RowSize {
    Length(u16),
    /// A share of what is left.
    Fill,
}

/// The rows that the lengths ask for.
pub open spec fn asked(sizes: Seq<RowSize>) -> nat
    decreases sizes.len(),
{
    if sizes.len() == 0 {
        0
    } else {
        asked(sizes.drop_last()) + (match sizes.last() {
            RowSize::Length(n) => n as nat,
            RowSize::Fill => 0,
        })
    }
}

/// The rows stand one below the other from the top of the area. A length is
/// kept, and the others, where there are any, share all that is left, none more
/// than one row ahead of another.
pub open spec fn is_stack(rows: Seq<Rect>, area: Rect, sizes: Seq<RowSize>) -> bool {
    &&& rows.len() > 0 ==> rows[0].y == area.y
    &&& forall|k: int|
        0 < k < rows.len() ==> (#[trigger] rows[k]).y == rows[k - 1].y + rows[k - 1].height
    &&& forall|k: int|
        0 <= k < rows.len() ==> (sizes[k] matches RowSize::Length(n) ==> (#[trigger] rows[k]).height
            == n)
    &&& sizes.contains(RowSize::Fill) ==> rows.last().y + rows.last().height == area.y
        + area.height
    &&& forall|j: int, k: int|
        0 <= j < rows.len() && 0 <= k < rows.len() && sizes[j] is Fill && sizes[k] is Fill
            ==> (#[trigger] rows[j]).height <= (#[trigger] rows[k]).height + 1
}

/// The area is split into rows of these sizes: each spans its width and stays
/// inside, and where the lengths fit the rows are a stack.
pub open spec fn is_split(rows: Seq<Rect>, area: Rect, sizes: Seq<RowSize>) -> bool {
    &&& rows.len() == sizes.len()
    &&& forall|k: int|
        0 <= k < rows.len() ==> {
            let r = #[trigger] rows[k];
            &&& r.x == area.x && r.width == area.width
            &&& area.y <= r.y && r.y + r.height <= edge(area.y, area.height)
        }
    &&& area.y + area.height <= 0xffff && asked(sizes) <= area.height ==> is_stack(
        rows,
        area,
        sizes,
    )
}

/// Calls ratatui's `Layout::vertical` and its `split`, with `Length` and
/// `Fill(1)` constraints. Claimed: one rectangle per constraint, as wide as the
/// area and inside it; lengths that fit are kept, the rows follow on one
/// another from the top, and the fills share the rest evenly, to the row. Where
/// the lengths do not fit, the solver settles which of them gives way, and
/// nothing more is said.
#[verifier::external_body]
fn split_rows(area: Rect, sizes: &Vec<RowSize>) -> (rows: Vec<Rect>)
    ensures
        is_split(rows@, area, sizes@),
{
    let whole = ratatui::layout::Rect { x: area.x, y: area.y, width: area.width, height: area.height };
    let parts = sizes.iter().map(|s| match s {
        RowSize::Length(n) => ratatui::layout::Constraint::Length(*n),
        RowSize::Fill => ratatui::layout::Constraint::Fill(1),
    });
    let split = ratatui::layout::Layout::vertical(parts).split(whole);
    split.iter().map(|r| Rect { x: r.x, y: r.y, width: r.width, height: r.height }).collect()
}

/// One cell further, not past the end.
pub open spec fn one_in(start: u16, len: u16) -> int {
    if len == 0 || start == 0xffff {
        start as int
    } else {
        start + 1
    }
}

/// The inside of a border of one cell on each side.
pub open spec fn inside_of(area: Rect) -> Rect {
    Rect {
        x: one_in(area.x, area.width) as u16,
        y: one_in(area.y, area.height) as u16,
        width: if area.width < 2 {
            0
        } else {
            (area.width - 2) as u16
        },
        height: if area.height < 2 {
            0
        } else {
            (area.height - 2) as u16
        },
    }
}

/// Calls ratatui's `Block::bordered` and its `inner`. Claimed: what is left of
/// an area within a border of one cell on each side.
#[verifier::external_body]
pub(crate) fn inside(area: Rect) -> (r: Rect)
    ensures
        r == inside_of(area),
{
    let whole = ratatui::layout::Rect { x: area.x, y: area.y, width: area.width, height: area.height };
    let r = ratatui::widgets::Block::bordered().inner(whole);
    Rect { x: r.x, y: r.y, width: r.width, height: r.height }
}

/// Rows that the process pane gets: what it wants, at most three tenths of the
/// body, and never all of it.
pub open spec fn pane_height(body: u16, procs: usize) -> int {
    let want: int = if procs + 3 > 0xffff {
        0xffff
    } else {
        procs + 3
    };
    let tenths = body * 3 / 10;
    let cap: int = if tenths < 4 {
        4
    } else {
        tenths
    };
    let rest: int = if body == 0 {
        0
    } else {
        body - 1
    };
    let least = if want < cap {
        want
    } else {
        cap
    };
    if least < rest {
        least
    } else {
        rest
    }
}

pub fn proc_pane_height(body_height: u16, procs: usize) -> (h: u16)
    ensures
        h == pane_height(body_height, procs),
        body_height > 0 ==> h < body_height,
{
    let want: u32 = if procs >= 0xfffc {
        0xffff
    } else {
        procs as u32 + 3
    };
    let tenths: u32 = body_height as u32 * 3 / 10;
    let cap: u32 = if tenths < 4 {
        4
    } else {
        tenths
    };
    let rest: u32 = if body_height == 0 {
        0
    } else {
        body_height as u32 - 1
    };
    let mut h: u32 = want;
    if h > cap {
        h = cap;
    }
    if h > rest {
        h = rest;
    }
    h as u16
}

/// The longest of some texts.
pub open spec fn longest(lines: Seq<Seq<char>>) -> nat
    decreases lines.len(),
{
    if lines.len() == 0 {
        0
    } else {
        let rest = longest(lines.drop_last());
        if lines.last().len() > rest {
            lines.last().len()
        } else {
            rest
        }
    }
}

/// The width of a popup: its widest line in columns, with borders and padding.
pub fn popup_width(lines: &[&str]) -> (w: u16)
    ensures
        w == width_for(longest(str_texts(lines@))),
{
    let ghost all = str_texts(lines@);
    let mut widest: usize = 0;
    let mut i: usize = 0;
    assert(all.take(0) =~= Seq::<Seq<char>>::empty());
    while i < lines.len()
        invariant
            i <= lines@.len(),
            all == str_texts(lines@),
            widest == longest(all.take(i as int)),
        decreases lines@.len() - i,
    {
        assert(all.take(i + 1).drop_last() =~= all.take(i as int));
        assert(all[i as int] == lines@[i as int]@);
        let cs = chars_of(lines[i]);
        if cs.len() > widest {
            widest = cs.len();
        }
        i = i + 1;
    }
    assert(all.take(i as int) =~= all);
    if widest >= 0xfffa {
        0xffff
    } else {
        widest as u16 + 6
    }
}

/// A rectangle of that size in the middle of an area, clamped to it.
pub open spec fn middle(area: Rect, w: u16, h: u16) -> Rect {
    let width = if w < area.width {
        w
    } else {
        area.width
    };
    let height = if h < area.height {
        h
    } else {
        area.height
    };
    Rect {
        x: (area.x + (area.width - width) / 2) as u16,
        y: (area.y + (area.height - height) / 2) as u16,
        width,
        height,
    }
}

pub fn centered(area: Rect, w: u16, h: u16) -> (r: Rect)
    requires
        area.x + area.width <= 0xffff,
        area.y + area.height <= 0xffff,
    ensures
        r == middle(area, w, h),
        area.x <= r.x && r.x + r.width <= area.x + area.width,
        area.y <= r.y && r.y + r.height <= area.y + area.height,
{
    let width: u16 = if w < area.width {
        w
    } else {
        area.width
    };
    let height: u16 = if h < area.height {
        h
    } else {
        area.height
    };
    Rect {
        x: area.x + (area.width - width) / 2,
        y: area.y + (area.height - height) / 2,
        width,
        height,
    }
}

// ---------------------------------------------------------------- cards

/// Rows of a stack of cards.
pub open spec fn total_height(heights: Seq<u16>) -> nat
    decreases heights.len(),
{
    if heights.len() == 0 {
        0
    } else {
        total_height(heights.drop_last()) + heights.last() as nat
    }
}

proof fn lemma_total_prefix(heights: Seq<u16>, i: int)
    requires
        0 <= i <= heights.len(),
    ensures
        total_height(heights.take(i)) <= total_height(heights),
        total_height(heights) <= 0xffff * heights.len(),
    decreases heights.len() - i, heights.len(),
{
    if heights.len() == 0 {
        assert(heights.take(i) =~= heights);
    } else {
        if i < heights.len() {
            lemma_total_prefix(heights, i + 1);
            assert(heights.take(i + 1).drop_last() =~= heights.take(i));
        } else {
            assert(heights.take(i) =~= heights);
            lemma_total_bound(heights);
        }
    }
}

proof fn lemma_total_bound(heights: Seq<u16>)
    ensures
        total_height(heights) <= 0xffff * heights.len(),
    decreases heights.len(),
{
    if heights.len() > 0 {
        lemma_total_bound(heights.drop_last());
    }
}

/// Rows that a stack of cards occupies; the sum is wider than a row count, so
/// that a tall stack never passes for one that fits.
pub fn stacked_height(heights: &Vec<u16>) -> (h: u64)
    requires
        heights@.len() <= 0xffff_ffff_ffff,
    ensures
        h == total_height(heights@),
{
    let mut sum: u64 = 0;
    let mut i: usize = 0;
    assert(heights@.take(0) =~= Seq::<u16>::empty());
    while i < heights.len()
        invariant
            i <= heights@.len() <= 0xffff_ffff_ffff,
            sum == total_height(heights@.take(i as int)),
        decreases heights@.len() - i,
    {
        proof {
            assert(heights@.take(i + 1).drop_last() =~= heights@.take(i as int));
            lemma_total_bound(heights@.take(i as int));
        }
        sum = sum + heights[i] as u64;
        i = i + 1;
    }
    assert(heights@.take(i as int) =~= heights@);
    sum
}

/// `n` is the most cards from the top whose heights fit.
pub open spec fn is_fit(n: int, heights: Seq<u16>, height: u16) -> bool {
    &&& 0 <= n <= heights.len()
    &&& total_height(heights.take(n)) <= height
    &&& n < heights.len() ==> total_height(heights.take(n + 1)) > height
}

/// How many whole cards fit, from the top.
pub fn cards_that_fit(heights: &Vec<u16>, height: u16) -> (n: usize)
    ensures
        is_fit(n as int, heights@, height),
{
    let mut shown: usize = 0;
    let mut used: u32 = 0;
    assert(heights@.take(0) =~= Seq::<u16>::empty());
    while shown < heights.len() && used + heights[shown] as u32 <= height as u32
        invariant
            shown <= heights@.len(),
            used == total_height(heights@.take(shown as int)),
            used <= height,
        decreases heights@.len() - shown,
    {
        assert(heights@.take(shown + 1).drop_last() =~= heights@.take(shown as int));
        used = used + heights[shown] as u32;
        shown = shown + 1;
    }
    proof {
        if shown < heights@.len() {
            assert(heights@.take(shown + 1).drop_last() =~= heights@.take(shown as int));
        }
    }
    shown
}

/// The least heights of the cards.
pub open spec fn card_heights(folded: Seq<bool>) -> Seq<u16> {
    folded.map_values(
        |f: bool|
            if f {
                1u16
            } else {
                CARD_MIN
            },
    )
}

/// The row sizes of cards: folded ones take a row, the others share the rest.
pub open spec fn card_sizes(folded: Seq<bool>) -> Seq<RowSize> {
    folded.map_values(
        |f: bool|
            if f {
                RowSize::Length(1)
            } else {
                RowSize::Fill
            },
    )
}

/// Rows from card `from` to the selected one.
pub open spec fn span(heights: Seq<u16>, from: int, selected: int) -> nat {
    total_height(heights.subrange(from, selected + 1))
}

/// The first card of the window: no later than before and than the selected
/// one, and moved on just as far as the selected card needs to be whole.
pub open spec fn scroll_to(heights: Seq<u16>, from: int, selected: int, height: u16) -> int
    decreases selected - from,
{
    if from >= selected || span(heights, from, selected) <= height {
        from
    } else {
        scroll_to(heights, from + 1, selected, height)
    }
}

/// What the card pane shows.
#[derive(Debug)]
pub enum CardsView {
    /// The backend reports no card.
    NoCards,
    /// Every card.
    All,
    /// A window of the cards, and a scrollbar: so many first positions, so
    /// many shown.
    Window { positions: usize, shown: usize },
}

/// Where the search for the window starts: at the last one's first card, no
/// later than the last card and than the selected one.
pub open spec fn scroll_start(n: int, scroll: int, selected: int) -> int {
    let from = if scroll < n - 1 {
        scroll
    } else {
        n - 1
    };
    if from < selected {
        from
    } else {
        selected
    }
}

/// The window of an overflowing card list: where it starts, and how many cards
/// it shows, at least one.
pub open spec fn is_window(
    first: int,
    shown: int,
    folded: Seq<bool>,
    scroll: int,
    selected: int,
    height: u16,
) -> bool {
    let heights = card_heights(folded);
    &&& first == scroll_to(
        heights,
        scroll_start(folded.len() as int, scroll, selected),
        selected,
        height,
    )
    &&& exists|fit: int|
        #[trigger] is_fit(fit, heights.skip(first), height) && shown == (if fit < 1 {
            1
        } else {
            fit
        })
}

/// The cards from `first` on stand in rows of these sizes.
pub open spec fn placed_in(
    rects: Seq<(Rect, usize)>,
    area: Rect,
    sizes: Seq<RowSize>,
    first: int,
) -> bool {
    exists|rows: Seq<Rect>| #[trigger] is_split(rows, area, sizes) && placed(rects, rows, first)
}

/// The cards from `first` on, with their rectangles.
pub open spec fn placed(rects: Seq<(Rect, usize)>, rows: Seq<Rect>, first: int) -> bool {
    &&& rects.len() == rows.len()
    &&& forall|k: int| 0 <= k < rects.len() ==> #[trigger] rects[k] == (rows[k], (first + k) as usize)
}

/// Whether each card is folded.
pub open spec fn folds(app: App) -> Seq<bool> {
    Seq::new(app.gpus@.len(), |i: int| app.folded@.dom().contains(app.key_of(i)))
}

pub open spec fn narrowed(area: Rect) -> Rect {
    Rect {
        width: if area.width == 0 {
            0
        } else {
            (area.width - 1) as u16
        },
        ..area
    }
}

/// What laying out the cards did: where everything fits, each card has its
/// row; else a window of whole cards in which the selected one is, beside a
/// scrollbar.
pub open spec fn cards_laid_out(before: App, after: App, area: Rect, view: CardsView) -> bool {
    let folded = folds(before);
    let n = before.gpus@.len();
    if n == 0 {
        view is NoCards && after == before
    } else if total_height(card_heights(folded)) <= area.height {
        &&& view is All
        &&& after == (App { gpu_scroll: 0, card_rects: after.card_rects, ..before })
        &&& placed_in(after.card_rects@, area, card_sizes(folded), 0)
    } else {
        let first = after.gpu_scroll as int;
        &&& view matches CardsView::Window { positions, shown }
        &&& is_window(
            first,
            shown as int,
            folded,
            before.gpu_scroll as int,
            before.selected as int,
            area.height,
        )
        &&& positions == n - (if shown < n {
            shown as int
        } else {
            n as int
        }) + 1
        &&& after == (App {
            gpu_scroll: after.gpu_scroll,
            card_rects: after.card_rects,
            ..before
        })
        &&& placed_in(
            after.card_rects@,
            narrowed(area),
            card_sizes(
                folded.subrange(
                    first,
                    if first + shown < n {
                        first + shown
                    } else {
                        n as int
                    },
                ),
            ),
            first,
        )
    }
}

proof fn lemma_scroll_to(heights: Seq<u16>, from: int, selected: int, height: u16)
    requires
        0 <= from <= selected < heights.len(),
    ensures
        from <= scroll_to(heights, from, selected, height) <= selected,
        ({
            let at = scroll_to(heights, from, selected, height);
            at < selected ==> span(heights, at, selected) <= height
        }),
    decreases selected - from,
{
    if from < selected && span(heights, from, selected) > height {
        lemma_scroll_to(heights, from + 1, selected, height);
    }
}

fn heights_between(folded: &Vec<bool>, from: usize, to: usize) -> (h: Vec<u16>)
    requires
        from <= to <= folded@.len(),
    ensures
        h@ == card_heights(folded@).subrange(from as int, to as int),
{
    let mut out: Vec<u16> = Vec::new();
    let mut i: usize = from;
    while i < to
        invariant
            from <= i <= to <= folded@.len(),
            out@ == card_heights(folded@).subrange(from as int, i as int),
        decreases to - i,
    {
        out.push(
            if folded[i] {
                1
            } else {
                CARD_MIN
            },
        );
        assert(out@ =~= card_heights(folded@).subrange(from as int, i + 1));
        i = i + 1;
    }
    out
}

fn sizes_between(folded: &Vec<bool>, from: usize, to: usize) -> (s: Vec<RowSize>)
    requires
        from <= to <= folded@.len(),
    ensures
        s@ == card_sizes(folded@.subrange(from as int, to as int)),
{
    let ghost part = folded@.subrange(from as int, to as int);
    let mut out: Vec<RowSize> = Vec::new();
    let mut i: usize = from;
    while i < to
        invariant
            from <= i <= to <= folded@.len(),
            part == folded@.subrange(from as int, to as int),
            out@ == card_sizes(part).take(i - from),
        decreases to - i,
    {
        out.push(
            if folded[i] {
                RowSize::Length(1)
            } else {
                RowSize::Fill
            },
        );
        assert(part[i - from] == folded@[i as int]);
        assert(out@ =~= card_sizes(part).take(i - from + 1));
        i = i + 1;
    }
    assert(out@ =~= card_sizes(part));
    out
}

fn place(rows: &Vec<Rect>, first: usize) -> (out: Vec<(Rect, usize)>)
    requires
        first + rows@.len() <= usize::MAX,
    ensures
        placed(out@, rows@, first as int),
{
    let mut out: Vec<(Rect, usize)> = Vec::new();
    let mut i: usize = 0;
    while i < rows.len()
        invariant
            i <= rows@.len(),
            first + rows@.len() <= usize::MAX,
            out@.len() == i,
            forall|k: int| 0 <= k < i ==> #[trigger] out@[k] == (rows@[k], (first + k) as usize),
        decreases rows@.len() - i,
    {
        out.push((rows[i], first + i));
        i = i + 1;
    }
    out
}

/// The window of an overflowing card list.
fn window_of(folded: &Vec<bool>, scroll: usize, selected: usize, height: u16) -> (r: (usize, usize))
    requires
        selected < folded@.len() <= 0xffff_ffff,
    ensures
        is_window(r.0 as int, r.1 as int, folded@, scroll as int, selected as int, height),
        r.0 <= selected,
        1 <= r.1,
        r.1 <= folded@.len(),
{
    let n: usize = folded.len();
    let heights = heights_between(folded, 0, n);
    assert(heights@ =~= card_heights(folded@));
    let mut first: usize = scroll;
    if first > n - 1 {
        first = n - 1;
    }
    if first > selected {
        first = selected;
    }
    let ghost start = first as int;
    assert(start == scroll_start(n as int, scroll as int, selected as int));
    while first < selected && stacked_height(&heights_between(folded, first, selected + 1))
        > height as u64
        invariant
            first <= selected < n,
            n == folded@.len(),
            n <= 0xffff_ffff,
            heights@ == card_heights(folded@),
            scroll_to(heights@, start, selected as int, height) == scroll_to(
                heights@,
                first as int,
                selected as int,
                height,
            ),
        decreases selected - first,
    {
        first = first + 1;
    }
    let rest = heights_between(folded, first, n);
    assert(rest@ =~= heights@.skip(first as int));
    let fit: usize = cards_that_fit(&rest, height);
    assert(is_fit(fit as int, heights@.skip(first as int), height));
    let shown: usize = if fit < 1 {
        1
    } else {
        fit
    };
    (first, shown)
}

impl App {
    fn fold_list(&self) -> (v: Vec<bool>)
        requires
            self.wf(),
        ensures
            v@ == folds(*self),
    {
        let mut out: Vec<bool> = Vec::new();
        let mut i: usize = 0;
        while i < self.gpus.len()
            invariant
                i <= self.gpus@.len(),
                self.wf(),
                out@ == folds(*self).take(i as int),
            decreases self.gpus@.len() - i,
        {
            out.push(self.is_folded(i));
            assert(out@ =~= folds(*self).take(i + 1));
            i = i + 1;
        }
        assert(out@ =~= folds(*self));
        out
    }

    /// Lays the cards out in their pane, and remembers where each is.
    pub fn lay_out_cards(&mut self, area: Rect) -> (view: CardsView)
        requires
            old(self).wf(),
            old(self).gpus@.len() <= 0xffff_ffff,
            old(self).gpus@.len() > 0 ==> old(self).selected < old(self).gpus@.len(),
        ensures
            cards_laid_out(*old(self), *final(self), area, view),
            final(self).wf(),
    {
        let n: usize = self.gpus.len();
        if n == 0 {
            return CardsView::NoCards;
        }
        let ghost before = *self;
        let folded = self.fold_list();
        let heights = heights_between(&folded, 0, n);
        assert(heights@ =~= card_heights(folded@));
        if stacked_height(&heights) <= area.height as u64 {
            self.gpu_scroll = 0;
            let sizes = sizes_between(&folded, 0, n);
            assert(folded@.subrange(0, n as int) =~= folded@);
            let rows = split_rows(area, &sizes);
            self.card_rects = place(&rows, 0);
            return CardsView::All;
        }
        let (first, shown) = window_of(&folded, self.gpu_scroll, self.selected, area.height);
        let end: usize = if n - first < shown {
            n
        } else {
            first + shown
        };
        let cards = Rect {
            x: area.x,
            y: area.y,
            width: if area.width == 0 {
                0
            } else {
                area.width - 1
            },
            height: area.height,
        };
        let sizes = sizes_between(&folded, first, end);
        let rows = split_rows(cards, &sizes);
        self.gpu_scroll = first;
        self.card_rects = place(&rows, first);
        let positions: usize = (if n > shown {
            n - shown
        } else {
            0
        }) + 1;
        CardsView::Window { positions, shown }
    }
}

/// In an overflowing list the selected card is in the window that is drawn.
pub proof fn the_selected_card_is_shown(app: App, area: Rect, first: int, shown: int)
    requires
        app.gpus@.len() > 0,
        app.selected < app.gpus@.len(),
        is_window(
            first,
            shown,
            folds(app),
            app.gpu_scroll as int,
            app.selected as int,
            area.height,
        ),
    ensures
        0 <= first <= app.selected < first + shown,
{
    let heights = card_heights(folds(app));
    let selected = app.selected as int;
    let start = scroll_start(app.gpus@.len() as int, app.gpu_scroll as int, selected);
    lemma_scroll_to(heights, start, selected, area.height);
    let fit = choose|fit: int|
        #[trigger] is_fit(fit, heights.skip(first), area.height) && shown == (if fit < 1 {
            1
        } else {
            fit
        });
    let rest = heights.skip(first);
    if first < selected && fit <= selected - first {
        let k = fit + 1;
        assert(total_height(rest.take(k)) > area.height);
        let upto = rest.take(selected + 1 - first);
        assert(upto =~= heights.subrange(first, selected + 1));
        assert(upto.take(k) =~= rest.take(k));
        lemma_total_prefix(upto, k);
    }
}

// ---------------------------------------------------------------- the frame

/// The three rows of the screen, and the two panes of its body.
#[derive(Clone, Copy, PartialEq, Eq, Structural, Debug)]
pub struct Screen {
    pub header: Rect,
    pub footer: Rect,
}

/// The header, the body and the footer.
pub open spec fn screen_sizes() -> Seq<RowSize> {
    seq![RowSize::Length(1), RowSize::Fill, RowSize::Length(1)]
}

/// The cards and the process table.
pub open spec fn pane_sizes(body: u16, procs: usize) -> Seq<RowSize> {
    seq![RowSize::Fill, RowSize::Length(pane_height(body, procs) as u16)]
}

/// The screen is divided into these rows, and its body into these panes.
pub open spec fn is_frame(rows: Seq<Rect>, panes: Seq<Rect>, area: Rect, procs: usize) -> bool {
    &&& is_split(rows, area, screen_sizes())
    &&& is_split(panes, rows[1], pane_sizes(rows[1].height, procs))
}

impl App {
    /// Divides the screen, remembers the panes for the mouse, and says how many
    /// samples the widest graph can show in the glyphs at hand.
    pub fn lay_out_screen(&mut self, area: Rect) -> (s: Screen)
        ensures
            old(self).wf() ==> final(self).wf(),
            screen_laid_out(*old(self), *final(self), area, s),
    {
        let mut sizes: Vec<RowSize> = Vec::new();
        sizes.push(RowSize::Length(1));
        sizes.push(RowSize::Fill);
        sizes.push(RowSize::Length(1));
        assert(sizes@ =~= screen_sizes());
        let rows = split_rows(area, &sizes);
        let body = rows[1];
        let height: u16 = proc_pane_height(body.height, self.procs.len());
        let mut split: Vec<RowSize> = Vec::new();
        split.push(RowSize::Fill);
        split.push(RowSize::Length(height));
        assert(split@ =~= pane_sizes(body.height, self.procs@.len() as usize));
        let panes = split_rows(body, &split);
        assert(is_frame(rows@, panes@, area, self.procs@.len() as usize));
        self.gpus_rect = panes[0];
        self.proc_rect = panes[1];
        let per: usize = samples_per_column(self.graph_style);
        assert(area.width * per <= 0x1fffe) by (nonlinear_arith)
            requires
                area.width <= 0xffff,
                1 <= per <= 2,
        ;
        self.history_need = area.width as usize * per;
        Screen { header: rows[0], footer: rows[2] }
    }
}

/// A screen of two rows or more has the header on its first row, the footer on
/// its last, and all between them goes to the cards and then the process table,
/// which gets the height it is owed.
pub proof fn the_screen_is_divided(rows: Seq<Rect>, panes: Seq<Rect>, area: Rect, procs: usize)
    requires
        is_frame(rows, panes, area, procs),
        area.y + area.height <= 0xffff,
        area.height >= 2,
    ensures
        rows[0] == (Rect { height: 1, ..area }),
        rows[2] == (Rect { y: (area.y + area.height - 1) as u16, height: 1, ..area }),
        panes[0].y == area.y + 1,
        panes[1].y == panes[0].y + panes[0].height,
        panes[1].height == pane_height((area.height - 2) as u16, procs),
        panes[0].height + panes[1].height == area.height - 2,
{
    let sizes = screen_sizes();
    reveal_with_fuel(asked, 4);
    assert(sizes.drop_last() =~= seq![RowSize::Length(1), RowSize::Fill]);
    assert(sizes.drop_last().drop_last() =~= seq![RowSize::Length(1)]);
    assert(sizes[1] is Fill);
    assert(is_stack(rows, area, sizes));
    assert(rows[1].y == rows[0].y + rows[0].height);
    assert(rows[2].y == rows[1].y + rows[1].height);
    let body = rows[1];
    assert(body.height == area.height - 2);
    let split = pane_sizes(body.height, procs);
    assert(split.drop_last() =~= seq![RowSize::Fill]);
    assert(split[0] is Fill);
    assert(is_stack(panes, body, split));
    assert(panes[1].y == panes[0].y + panes[0].height);
}

/// The rows of a card's inside: the two meters, the graph, the session line
/// where it has one, and the readouts.
pub open spec fn card_parts(with_session: bool) -> Seq<RowSize> {
    seq![
        RowSize::Length(1),
        RowSize::Length(1),
        RowSize::Fill,
        RowSize::Length(
            if with_session {
                1
            } else {
                0
            },
        ),
        RowSize::Length(1),
    ]
}

pub fn split_card(inner: Rect, with_session: bool) -> (rows: Vec<Rect>)
    ensures
        is_split(rows@, inner, card_parts(with_session)),
        rows@.len() == 5,
{
    let session: u16 = if with_session {
        1
    } else {
        0
    };
    let mut sizes: Vec<RowSize> = Vec::new();
    sizes.push(RowSize::Length(1));
    sizes.push(RowSize::Length(1));
    sizes.push(RowSize::Fill);
    sizes.push(RowSize::Length(session));
    sizes.push(RowSize::Length(1));
    assert(sizes@ =~= card_parts(with_session));
    split_rows(inner, &sizes)
}

// ---------------------------------------------------------------- laws

/// The process pane gets what it wants where that fits: a row for each process
/// and three around them, within three tenths of the body or four rows, and
/// with one row left for the cards. It is no lower than it must be.
pub proof fn the_process_pane_gets_what_fits(body: u16, procs: usize, taller: usize)
    requires
        body > 0,
        procs <= taller,
    ensures
        pane_height(body, procs) <= procs + 3,
        pane_height(body, procs) <= 4 || 10 * pane_height(body, procs) <= 3 * body,
        pane_height(body, procs) < body,
        pane_height(body, procs) == procs + 3 || pane_height(body, procs) + 1 == body || (
        pane_height(body, procs) >= 4 && 10 * (pane_height(body, procs) + 1) > 3 * body),
        pane_height(body, procs) <= pane_height(body, taller),
{
}

/// The longest of some texts is one of them, and none is longer.
pub proof fn the_longest_is_one_of_them(lines: Seq<Seq<char>>)
    ensures
        forall|k: int| 0 <= k < lines.len() ==> (#[trigger] lines[k]).len() <= longest(lines),
        lines.len() > 0 ==> exists|k: int|
            0 <= k < lines.len() && (#[trigger] lines[k]).len() == longest(lines),
        lines.len() == 0 ==> longest(lines) == 0,
    decreases lines.len(),
{
    if lines.len() > 0 {
        let init = lines.drop_last();
        the_longest_is_one_of_them(init);
        let n = lines.len() - 1;
        assert(lines[n] == lines.last());
        assert forall|k: int| 0 <= k < lines.len() implies (#[trigger] lines[k]).len() <= longest(lines) by {
            if k < n {
                assert(init[k] == lines[k]);
            }
        }
        if lines[n].len() != longest(lines) {
            if init.len() > 0 {
                let k = choose|k: int| 0 <= k < init.len() && (#[trigger] init[k]).len() == longest(init);
                assert(lines[k].len() == longest(lines));
            }
        }
    }
}

/// A popup has the size that was asked for, or the area's where that is less,
/// and stands in the middle: what is left of it and right of it differ by a
/// column at most, as what is above and below.
pub proof fn a_popup_stands_in_the_middle(area: Rect, w: u16, h: u16)
    requires
        area.x + area.width <= 0xffff,
        area.y + area.height <= 0xffff,
    ensures
        ({
            let r = middle(area, w, h);
            let left = r.x - area.x;
            let right = area.x + area.width - (r.x + r.width);
            let above = r.y - area.y;
            let below = area.y + area.height - (r.y + r.height);
            &&& w <= area.width ==> r.width == w
            &&& w > area.width ==> r.width == area.width
            &&& h <= area.height ==> r.height == h
            &&& h > area.height ==> r.height == area.height
            &&& 0 <= left <= right <= left + 1
            &&& 0 <= above <= below <= above + 1
        }),
{
}

/// A border takes one cell on each side.
pub proof fn a_border_takes_a_cell_on_each_side(area: Rect)
    requires
        area.x + area.width <= 0xffff,
        area.y + area.height <= 0xffff,
        area.width >= 2,
        area.height >= 2,
    ensures
        inside_of(area).x == area.x + 1,
        inside_of(area).y == area.y + 1,
        inside_of(area).x + inside_of(area).width + 1 == area.x + area.width,
        inside_of(area).y + inside_of(area).height + 1 == area.y + area.height,
{
}

/// Heights add up, card by card; a folded card has one row and another eight at
/// the least.
pub proof fn heights_add_up(heights: Seq<u16>, more: u16, folded: Seq<bool>, k: int)
    ensures
        total_height(heights.push(more)) == total_height(heights) + more,
        total_height(Seq::empty()) == 0,
        card_heights(folded).len() == folded.len() && card_sizes(folded).len() == folded.len(),
        0 <= k < folded.len() && folded[k] ==> card_heights(folded)[k] == 1 && card_sizes(folded)[k]
            == RowSize::Length(1),
        0 <= k < folded.len() && !folded[k] ==> card_heights(folded)[k] == 8 && card_sizes(
            folded,
        )[k] is Fill,
{
    assert(heights.push(more).drop_last() =~= heights);
}

/// The rows that lengths ask for add up, and a fill asks for none.
pub proof fn lengths_add_up(sizes: Seq<RowSize>, n: u16)
    ensures
        asked(sizes.push(RowSize::Length(n))) == asked(sizes) + n,
        asked(sizes.push(RowSize::Fill)) == asked(sizes),
        asked(Seq::empty()) == 0,
{
    assert(sizes.push(RowSize::Length(n)).drop_last() =~= sizes);
    assert(sizes.push(RowSize::Fill).drop_last() =~= sizes);
}

/// The card window stays where it is while the selected card is whole in it,
/// moves no further down than that card needs, and goes back to it where it
/// lies above.
pub proof fn the_card_window_moves_no_further_than_needed(
    heights: Seq<u16>,
    from: int,
    selected: int,
    height: u16,
)
    requires
        0 <= from <= selected < heights.len(),
    ensures
        span(heights, from, selected) <= height ==> scroll_to(heights, from, selected, height)
            == from,
        scroll_to(heights, from, selected, height) > from ==> span(
            heights,
            scroll_to(heights, from, selected, height) - 1,
            selected,
        ) > height,
        scroll_to(heights, from, selected, height) < selected ==> span(
            heights,
            scroll_to(heights, from, selected, height),
            selected,
        ) <= height,
    decreases selected - from,
{
    if from < selected && span(heights, from, selected) > height {
        the_card_window_moves_no_further_than_needed(heights, from + 1, selected, height);
        lemma_scroll_to(heights, from + 1, selected, height);
    }
    lemma_scroll_to(heights, from, selected, height);
}

/// The search starts at the window's first card, or at the selected one where
/// that lies above, and never past the last.
pub proof fn the_card_window_starts_at_or_above_the_selected(n: int, scroll: int, selected: int)
    requires
        0 <= selected < n,
        0 <= scroll,
    ensures
        scroll <= selected ==> scroll_start(n, scroll, selected) == scroll,
        scroll > selected ==> scroll_start(n, scroll, selected) == selected,
{
}

/// Inside a card the meters stand on top of each other, the readouts at the
/// bottom with the session line above them where there is one, and the graph
/// gets all that is between.
pub proof fn a_card_is_divided(rows: Seq<Rect>, inner: Rect, with_session: bool)
    requires
        is_split(rows, inner, card_parts(with_session)),
        inner.y + inner.height <= 0xffff,
        inner.height >= 4,
    ensures
        rows[0].y == inner.y && rows[0].height == 1,
        rows[1].y == inner.y + 1 && rows[1].height == 1,
        rows[2].y == inner.y + 2,
        rows[4].y + 1 == inner.y + inner.height && rows[4].height == 1,
        with_session ==> rows[3].y + 1 == rows[4].y && rows[2].height == inner.height - 4,
        !with_session ==> rows[3].height == 0 && rows[2].height == inner.height - 3,
{
    let sizes = card_parts(with_session);
    reveal_with_fuel(asked, 6);
    let s4 = sizes.drop_last();
    let s3 = s4.drop_last();
    let s2 = s3.drop_last();
    let s1 = s2.drop_last();
    assert(s4.last() == sizes[3] && s3.last() == sizes[2] && s2.last() == sizes[1] && s1.last()
        == sizes[0]);
    assert(s1.drop_last().len() == 0);
    assert(sizes[2] is Fill);
    assert(sizes.contains(RowSize::Fill));
    assert(is_stack(rows, inner, sizes));
    assert(rows[1].y == rows[0].y + rows[0].height);
    assert(rows[2].y == rows[1].y + rows[1].height);
    assert(rows[3].y == rows[2].y + rows[2].height);
    assert(rows[4].y == rows[3].y + rows[3].height);
    assert(rows.last() == rows[4]);
}

/// Where every card fits, every card has a place, in its order, as wide as the
/// pane and within it, and a folded one takes a row.
pub proof fn every_card_that_fits_has_its_place(
    before: App,
    after: App,
    area: Rect,
    view: CardsView,
    k: int,
)
    requires
        cards_laid_out(before, after, area, view),
        total_height(card_heights(folds(before))) <= area.height,
        0 <= k < before.gpus@.len() <= usize::MAX,
    ensures
        view is All,
        after.gpu_scroll == 0,
        after.card_rects@.len() == before.gpus@.len(),
        after.card_rects@[k].1 == k,
        after.card_rects@[k].0.x == area.x && after.card_rects@[k].0.width == area.width,
        area.y <= after.card_rects@[k].0.y,
        after.card_rects@[k].0.y + after.card_rects@[k].0.height <= edge(area.y, area.height),
        area.y + area.height <= 0xffff && asked(card_sizes(folds(before))) <= area.height ==> {
            &&& after.card_rects@[0].0.y == area.y
            &&& folds(before)[k] ==> after.card_rects@[k].0.height == 1
            &&& k > 0 ==> after.card_rects@[k].0.y == after.card_rects@[k - 1].0.y
                + after.card_rects@[k - 1].0.height
        },
        after.gpus == before.gpus && after.selected == before.selected,
        after.folded == before.folded && after.proc_scroll == before.proc_scroll,
{
    let sizes = card_sizes(folds(before));
    let rects = after.card_rects@;
    let rows = choose|rows: Seq<Rect>|
        #[trigger] is_split(rows, area, sizes) && placed(rects, rows, 0);
    assert(sizes.len() == before.gpus@.len());
    assert(rects[k] == (rows[k], k as usize));
    assert(rects[0] == (rows[0], 0usize));
    if k > 0 {
        assert(rects[k - 1] == (rows[k - 1], (k - 1) as usize));
    }
    if folds(before)[k] {
        assert(sizes[k] == RowSize::Length(1));
    }
}

/// Where the cards overflow, a window of whole cards is placed from its first
/// on, the selected one among them, a column narrower than the pane; the
/// scrollbar has as many positions as the window can start at.
pub proof fn a_window_of_cards_has_its_place(
    before: App,
    after: App,
    area: Rect,
    view: CardsView,
    k: int,
)
    requires
        cards_laid_out(before, after, area, view),
        total_height(card_heights(folds(before))) > area.height,
        before.gpus@.len() <= usize::MAX,
        before.selected < before.gpus@.len(),
        0 <= k < after.card_rects@.len(),
    ensures
        view matches CardsView::Window { positions, shown } && {
            &&& after.card_rects@.len() <= shown
            &&& positions + shown == before.gpus@.len() + 1 || shown >= before.gpus@.len()
                && positions == 1
        },
        after.card_rects@[k].1 == after.gpu_scroll + k < before.gpus@.len(),
        after.gpu_scroll <= before.selected < after.gpu_scroll + after.card_rects@.len(),
        after.card_rects@[k].0.x == area.x,
        area.width > 0 ==> after.card_rects@[k].0.width == area.width - 1,
        area.y <= after.card_rects@[k].0.y,
        after.card_rects@[k].0.y + after.card_rects@[k].0.height <= edge(area.y, area.height),
        after.gpus == before.gpus && after.selected == before.selected,
{
    if let CardsView::Window { positions, shown } = view {
        let folded = folds(before);
        let n = before.gpus@.len() as int;
        let first = after.gpu_scroll as int;
        the_selected_card_is_shown(before, area, first, shown as int);
        let end = if first + shown < n {
            first + shown
        } else {
            n
        };
        let sizes = card_sizes(folded.subrange(first, end));
        let rects = after.card_rects@;
        let rows = choose|rows: Seq<Rect>|
            #[trigger] is_split(rows, narrowed(area), sizes) && placed(rects, rows, first);
        assert(sizes.len() == end - first);
        assert(rects[k] == (rows[k], (first + k) as usize));
    }
}

/// The width of a popup around lines of which the longest is `n` wide.
pub open spec fn width_for(n: nat) -> int {
    if n + 6 > 0xffff {
        0xffff
    } else {
        n as int + 6
    }
}

/// A popup is as wide as its longest line, its borders and two columns on each
/// side, as far as the screen can be addressed.
pub proof fn a_popup_is_wider_than_its_lines(n: nat, m: nat)
    ensures
        n + 6 <= 0xffff ==> width_for(n) == n + 6,
        n <= m ==> width_for(n) <= width_for(m),
        width_for(n) <= 0xffff,
        n + 6 > 0xffff ==> width_for(n) == 0xffff,
{
}

/// What laying out the screen did: the header above, the two panes, the footer
/// below, and how many samples the widest graph needs.
pub open spec fn screen_laid_out(before: App, after: App, area: Rect, s: Screen) -> bool {
    exists|rows: Seq<Rect>, panes: Seq<Rect>|
        #[trigger] is_frame(rows, panes, area, before.procs@.len() as usize) && s == (Screen {
            header: rows[0],
            footer: rows[2],
        }) && after == (App {
            gpus_rect: panes[0],
            proc_rect: panes[1],
            history_need: (area.width * (if before.graph_style == GraphStyle::Braille {
                2int
            } else {
                1
            })) as usize,
            ..before
        })
}

/// A graph as wide as the screen needs a sample for each column, two where its
/// glyphs are two samples wide; laying out changes the rectangles only.
pub proof fn the_widest_graph_has_its_samples(before: App, after: App, area: Rect, s: Screen)
    requires
        screen_laid_out(before, after, area, s),
    ensures
        before.graph_style is Braille ==> after.history_need == 2 * area.width,
        !(before.graph_style is Braille) ==> after.history_need == area.width,
        after.gpus == before.gpus && after.procs == before.procs,
        after.selected == before.selected && after.proc_sel == before.proc_sel,
        after.card_rects == before.card_rects && after.graph_style == before.graph_style,
{
}

/// Rows whose lengths fit stand one below the other without a gap from the top
/// of the area, each as high as asked; those without a length share what is
/// left down to the bottom, evenly.
pub proof fn a_stack_fills_its_area(rows: Seq<Rect>, area: Rect, sizes: Seq<RowSize>, j: int, k: int)
    requires
        is_split(rows, area, sizes),
        area.y + area.height <= 0xffff,
        asked(sizes) <= area.height,
        0 <= j < sizes.len(),
        0 <= k < sizes.len(),
    ensures
        rows.len() == sizes.len(),
        rows[0].y == area.y,
        k > 0 ==> rows[k].y == rows[k - 1].y + rows[k - 1].height,
        sizes[k] matches RowSize::Length(n) ==> rows[k].height == n,
        sizes[k] is Fill ==> rows.last().y + rows.last().height == area.y + area.height,
        sizes[j] is Fill && sizes[k] is Fill ==> rows[j].height <= rows[k].height + 1,
        rows[k].x == area.x && rows[k].width == area.width,
{
    if sizes[k] is Fill {
        assert(sizes[k] == RowSize::Fill);
        assert(sizes.contains(RowSize::Fill));
    }
    assert(rows[k].x == area.x);
}

} // verus!
