//! The process table: which rows it shows, and what stands in them.
use vstd::prelude::*;
use crate::app::process::ProcRow;
use crate::app::{App, Rect, SortBy};
use crate::backend::{opt_text, ProcKind};
use crate::text::{a_text_is_found_where_it_stands, contains_text, decimal, decimal_text, has_prefix, string_texts};
use crate::ui::card::cat5;
use crate::ui::line::{part_models, wide, wide_part, Part, PartModel};

verus! {

// ---------------------------------------------------------------- the window

/// Data rows that fit: the pane less its borders and header.
pub open spec fn rows_shown(height: u16, total: nat) -> int {
    let room: int = if height < 3 {
        0
    } else {
        height - 3
    };
    if room < total {
        room
    } else {
        total as int
    }
}

/// The cursor, no further than the last row.
pub open spec fn cursor(sel: int, total: nat) -> int {
    if total == 0 {
        0
    } else if sel < total {
        sel
    } else {
        total - 1
    }
}

/// The first row shown: moved just as far as the cursor needs, and no further
/// than the end.
pub open spec fn first_row(scroll: int, sel: int, shown: int, total: nat) -> int {
    let followed = if sel < scroll {
        sel
    } else if shown > 0 && sel >= scroll + shown {
        sel + 1 - shown
    } else {
        scroll
    };
    let last = total - shown;
    if followed < last {
        followed
    } else {
        last
    }
}

/// The cursor's row is among those shown, wherever any is shown at all.
pub proof fn the_cursor_row_is_shown(scroll: int, sel: int, shown: int, total: nat)
    requires
        0 <= sel < total,
        0 <= scroll,
        0 < shown <= total,
    ensures
        0 <= first_row(scroll, sel, shown, total) <= sel < first_row(scroll, sel, shown, total)
            + shown,
        first_row(scroll, sel, shown, total) + shown <= total,
{
}

// ---------------------------------------------------------------- texts

pub open spec fn arrow(desc: bool) -> Seq<char> {
    if desc {
        "↓"@
    } else {
        "↑"@
    }
}

fn arrow_of(desc: bool) -> (s: &'static str)
    ensures
        s@ == arrow(desc),
{
    if desc {
        "↓"
    } else {
        "↑"
    }
}

pub open spec fn sort_label(by: SortBy) -> Seq<char> {
    match by {
        SortBy::GpuMem => "gpu-mem"@,
        SortBy::GpuUtil => "gpu%"@,
        SortBy::Cpu => "cpu%"@,
        SortBy::HostMem => "host-mem"@,
        SortBy::Pid => "pid"@,
    }
}

/// The caption at the right: the filter where there is one, the sort, and
/// which rows of how many are shown.
pub open spec fn counter(app: App, first: int, shown: int) -> Seq<char> {
    let total = app.procs@.len();
    let sorted = sort_label(app.sort_by) + arrow(app.sort_desc);
    let head = if app.filter@.len() == 0 {
        sorted
    } else {
        "filter:"@ + app.filter@ + " · "@ + sorted
    };
    if total > shown && shown > 0 {
        head + " · "@ + decimal((first + 1) as nat) + "-"@ + decimal((first + shown) as nat) + "/"@
            + decimal(total)
    } else {
        head + " · "@ + decimal(total)
    }
}

fn counter_text(app: &App, first: usize, shown: usize) -> (s: String)
    requires
        first + shown <= app.procs@.len(),
    ensures
        s@ == counter(*app, first as int, shown as int),
{
    let total: usize = app.procs.len();
    let mut s = String::new();
    let ghost sorted = sort_label(app.sort_by) + arrow(app.sort_desc);
    if !app.filter.as_str().is_empty() {
        s.append("filter:");
        s.append(app.filter.as_str());
        s.append(" · ");
    }
    s.append(app.sort_by.label());
    s.append(arrow_of(app.sort_desc));
    proof {
        if app.filter@.len() == 0 {
            assert(s@ =~= sorted);
        } else {
            assert(s@ =~= "filter:"@ + app.filter@ + " · "@ + sorted);
        }
    }
    let ghost head = s@;
    let all = decimal_text(total as u64);
    s.append(" · ");
    if total > shown && shown > 0 {
        let a = decimal_text((first + 1) as u64);
        let b = decimal_text((first + shown) as u64);
        s.append(a.as_str());
        s.append("-");
        s.append(b.as_str());
        s.append("/");
        s.append(all.as_str());
        assert(s@ =~= head + " · "@ + decimal((first + 1) as nat) + "-"@ + decimal(
            (first + shown) as nat,
        ) + "/"@ + decimal(total as nat));
    } else {
        s.append(all.as_str());
        assert(s@ =~= head + " · "@ + decimal(total as nat));
    }
    s
}

/// Why the table is empty: the filter, where there is one, rather than
/// permissions.
pub open spec fn empty_text(app: App) -> Seq<char> {
    if app.filter@.len() == 0 {
        "no GPU processes visible (need same-user or root for fdinfo)"@
    } else {
        "no processes match filter '"@ + app.filter@ + "' ("@ + decimal(app.all_procs@.len())
            + " hidden; press / to change)"@
    }
}

fn empty_message(app: &App) -> (s: String)
    ensures
        s@ == empty_text(*app),
{
    if app.filter.as_str().is_empty() {
        "no GPU processes visible (need same-user or root for fdinfo)".to_owned()
    } else {
        let hidden = decimal_text(app.all_procs.len() as u64);
        cat5(
            "no processes match filter '",
            app.filter.as_str(),
            "' (",
            hidden.as_str(),
            " hidden; press / to change)",
        )
    }
}

/// A column's heading, with the arrow where the table is sorted by it.
pub open spec fn heading(label: Seq<char>, sorted: bool, desc: bool) -> Seq<char> {
    if sorted {
        label + arrow(desc)
    } else {
        label
    }
}

/// Some row has a container.
pub open spec fn any_container(procs: Seq<ProcRow>) -> bool {
    exists|k: int| 0 <= k < procs.len() && (#[trigger] procs[k]).container is Some
}

/// The headings; the container column only where a row has one.
pub open spec fn headings(app: App) -> Seq<Seq<char>> {
    let by = app.sort_by;
    let d = app.sort_desc;
    let first = seq![
        heading("PID"@, by == SortBy::Pid, d),
        "USER"@,
        "DEV"@,
        "TYPE"@,
        heading("GPU%"@, by == SortBy::GpuUtil, d),
        heading("GPU MEM"@, by == SortBy::GpuMem, d),
        heading("CPU%"@, by == SortBy::Cpu, d),
        heading("HOST MEM"@, by == SortBy::HostMem, d),
    ];
    (if any_container(app.procs@) {
        first.push("CONTAINER"@)
    } else {
        first
    }).push("COMMAND"@)
}

fn mark(label: &str, sorted: bool, desc: bool) -> (s: String)
    ensures
        s@ == heading(label@, sorted, desc),
{
    let mut s = String::new();
    s.append(label);
    assert(s@ =~= label@);
    if sorted {
        s.append(arrow_of(desc));
    }
    s
}

fn has_container(procs: &Vec<ProcRow>) -> (b: bool)
    ensures
        b == any_container(procs@),
{
    let mut i: usize = 0;
    while i < procs.len()
        invariant
            i <= procs@.len(),
            forall|k: int| 0 <= k < i ==> (#[trigger] procs@[k]).container is None,
        decreases procs@.len() - i,
    {
        if procs[i].container.is_some() {
            assert(procs@[i as int].container is Some);
            return true;
        }
        i = i + 1;
    }
    false
}

fn heading_list(app: &App, container: bool) -> (v: Vec<String>)
    requires
        container == any_container(app.procs@),
    ensures
        string_texts(v@) == headings(*app),
{
    let by = app.sort_by;
    let d = app.sort_desc;
    let mut v: Vec<String> = Vec::new();
    v.push(mark("PID", by == SortBy::Pid, d));
    v.push("USER".to_owned());
    v.push("DEV".to_owned());
    v.push("TYPE".to_owned());
    v.push(mark("GPU%", by == SortBy::GpuUtil, d));
    v.push(mark("GPU MEM", by == SortBy::GpuMem, d));
    v.push(mark("CPU%", by == SortBy::Cpu, d));
    v.push(mark("HOST MEM", by == SortBy::HostMem, d));
    if container {
        v.push("CONTAINER".to_owned());
    }
    v.push("COMMAND".to_owned());
    assert(string_texts(v@) =~= headings(*app));
    v
}

/// The widths of the columns before the last, which takes the rest.
pub fn column_widths(container: bool) -> (v: Vec<u16>)
    ensures
        v@ == widths(container),
{
    let mut v: Vec<u16> = vec![8, 10, 3, 8, 5, 9, 5, 9];
    if container {
        v.push(19);
    }
    assert(v@ =~= (if container {
        seq![8u16, 10, 3, 8, 5, 9, 5, 9, 19]
    } else {
        seq![8u16, 10, 3, 8, 5, 9, 5, 9]
    }));
    v
}

// ---------------------------------------------------------------- rows

/// Whole mebibytes, or that the figure is unknown.
pub open spec fn mib(b: Option<u64>, unknown: Seq<char>) -> Seq<char> {
    match b {
        Some(v) => decimal((v / 1048576) as nat) + "MiB"@,
        None => unknown,
    }
}

pub fn mib_text(b: Option<u64>, unknown: &str) -> (s: String)
    ensures
        s@ == mib(b, unknown@),
{
    match b {
        Some(v) => {
            let mut s = decimal_text(v / 1_048_576);
            s.append("MiB");
            s
        },
        None => unknown.to_owned(),
    }
}

pub open spec fn text_cell(s: Seq<char>) -> Seq<PartModel> {
    seq![PartModel::Text(s)]
}

pub open spec fn kind_label(k: ProcKind) -> Seq<char> {
    match k {
        ProcKind::Graphics => "Graphic"@,
        ProcKind::Compute => "Compute"@,
    }
}

/// The cells of a row; a figure that could not be read says so.
pub open spec fn cells(p: ProcRow, container: bool) -> Seq<Seq<PartModel>> {
    let first = seq![
        text_cell(decimal(p.pid as nat)),
        text_cell(p.user@),
        text_cell(decimal(p.gpu_index as nat)),
        text_cell(kind_label(p.kind)),
        match p.gpu_util_pct {
            Some(u) => seq![wide(u), PartModel::Text("%"@)],
            None => text_cell("N/A"@),
        },
        text_cell(mib(p.gpu_mem_bytes, "N/A"@)),
        match p.cpu_pct {
            Some(c) => seq![
                PartModel::Fixed32 { value32: c, width: 3, decimals: 0 },
                PartModel::Text("%"@),
            ],
            None => text_cell("N/A"@),
        },
        text_cell(mib(p.host_mem_bytes, "N/A"@)),
    ];
    (if container {
        first.push(
            text_cell(
                match opt_text(p.container) {
                    Some(c) => c,
                    None => "-"@,
                },
            ),
        )
    } else {
        first
    }).push(text_cell(p.command@))
}

pub open spec fn cell_models(v: Seq<Vec<Part>>) -> Seq<Seq<PartModel>> {
    v.map_values(|c: Vec<Part>| part_models(c@))
}

fn put_text(row: &mut Vec<Vec<Part>>, s: String)
    ensures
        cell_models(final(row)@) == cell_models(old(row)@).push(text_cell(s@)),
{
    let ghost was = row@;
    let ghost text = s@;
    let mut parts: Vec<Part> = Vec::new();
    parts.push(Part::Text(s));
    assert(part_models(parts@) =~= text_cell(text));
    row.push(parts);
    assert(cell_models(row@) =~= cell_models(was).push(text_cell(text)));
}

fn put_pct(row: &mut Vec<Vec<Part>>, n: Part)
    ensures
        cell_models(final(row)@) == cell_models(old(row)@).push(
            seq![n.model(), PartModel::Text("%"@)],
        ),
{
    let ghost was = row@;
    let ghost m = n.model();
    let mut parts: Vec<Part> = Vec::new();
    parts.push(n);
    parts.push(Part::Text("%".to_owned()));
    assert(part_models(parts@) =~= seq![m, PartModel::Text("%"@)]);
    row.push(parts);
    assert(cell_models(row@) =~= cell_models(was).push(seq![m, PartModel::Text("%"@)]));
}

pub fn row_cells(p: &ProcRow, container: bool) -> (row: Vec<Vec<Part>>)
    ensures
        cell_models(row@) == cells(*p, container),
{
    let mut row: Vec<Vec<Part>> = Vec::new();
    put_text(&mut row, decimal_text(p.pid as u64));
    put_text(&mut row, p.user.clone());
    put_text(&mut row, decimal_text(p.gpu_index as u64));
    put_text(&mut row, p.kind.label().to_owned());
    match p.gpu_util_pct {
        Some(u) => {
            put_pct(&mut row, wide_part(u));
        },
        None => {
            put_text(&mut row, "N/A".to_owned());
        },
    }
    put_text(&mut row, mib_text(p.gpu_mem_bytes, "N/A"));
    match p.cpu_pct {
        Some(c) => {
            put_pct(&mut row, Part::Fixed32 { value32: c, width: 3, decimals: 0 });
        },
        None => {
            put_text(&mut row, "N/A".to_owned());
        },
    }
    put_text(&mut row, mib_text(p.host_mem_bytes, "N/A"));
    if container {
        match &p.container {
            Some(c) => {
                put_text(&mut row, c.clone());
            },
            None => {
                put_text(&mut row, "-".to_owned());
            },
        }
    }
    put_text(&mut row, p.command.clone());
    assert(cell_models(row@) =~= cells(*p, container));
    row
}

// ---------------------------------------------------------------- the table

/// One row on screen.
#[derive(Debug)]
pub struct RowView {
    pub selected: bool,
    pub cells: Vec<Vec<Part>>,
}

/// A scrollbar: its track, and where its thumb is.
#[derive(Clone, Copy, PartialEq, Eq, Structural, Debug)]
pub struct Scroll {
    pub track: Rect,
    pub position: usize,
    /// The last position the thumb can have.
    pub last: usize,
    /// Rows shown at once.
    pub viewport: usize,
}

/// What the process pane shows.
#[derive(Debug)]
pub enum ProcsView {
    /// The pane is too low for a border and a header.
    Hidden,
    Empty { counter: String, message: String },
    Table {
        counter: String,
        headings: Vec<String>,
        container: bool,
        rows: Vec<RowView>,
        scroll: Option<Scroll>,
    },
}

/// The rows on screen, from row `first` on.
pub open spec fn rows_drawn(
    rows: Seq<RowView>,
    app: App,
    first: int,
    shown: int,
    container: bool,
) -> bool {
    &&& rows.len() == shown
    &&& forall|k: int|
        0 <= k < shown ==> (#[trigger] rows[k]).selected == (first + k == app.proc_sel)
            && cell_models(rows[k].cells@) == cells(app.procs@[first + k], container)
}

/// The pane shows the rows from `first` on.
pub open spec fn pane_shown(app: App, area: Rect, first: int, shown: int, view: ProcsView) -> bool {
    let total = app.procs@.len();
    if total == 0 {
        &&& view matches ProcsView::Empty { counter: c, message }
        &&& c@ == counter(app, first, shown)
        &&& message@ == empty_text(app)
    } else {
        &&& view matches ProcsView::Table { counter: c, headings: h, container, rows, scroll }
        &&& c@ == counter(app, first, shown)
        &&& string_texts(h@) == headings(app)
        &&& container == any_container(app.procs@)
        &&& rows_drawn(rows@, app, first, shown, container)
        &&& scroll == (if total > shown {
            Some(
                Scroll {
                    track: Rect {
                        x: area.x,
                        y: (area.y + 2) as u16,
                        width: area.width,
                        height: (area.height - 3) as u16,
                    },
                    position: first as usize,
                    last: (total - shown) as usize,
                    viewport: shown as usize,
                },
            )
        } else {
            None
        })
    }
}

/// What laying out the process pane did.
pub open spec fn procs_laid_out(before: App, after: App, area: Rect, view: ProcsView) -> bool {
    let total = before.procs@.len();
    if area.height < 3 {
        after == (App { proc_visible: 0, ..before }) && view is Hidden
    } else {
        let shown = rows_shown(area.height, total);
        let sel = cursor(before.proc_sel as int, total);
        let first = first_row(before.proc_scroll as int, sel, shown, total);
        &&& after == (App {
            proc_visible: shown as usize,
            proc_sel: sel as usize,
            proc_scroll: first as usize,
            ..before
        })
        &&& pane_shown(after, area, first, shown, view)
    }
}

fn draw_rows(app: &App, first: usize, shown: usize, container: bool) -> (rows: Vec<RowView>)
    requires
        first + shown <= app.procs@.len(),
    ensures
        rows_drawn(rows@, *app, first as int, shown as int, container),
{
    let mut rows: Vec<RowView> = Vec::new();
    let n: usize = app.procs.len();
    let mut k: usize = 0;
    while k < shown
        invariant
            k <= shown,
            first + shown <= app.procs@.len(),
            n == app.procs@.len(),
            rows_drawn(rows@, *app, first as int, k as int, container),
        decreases shown - k,
    {
        let at: usize = first + k;
        let ghost was = rows@;
        rows.push(
            RowView { selected: at == app.proc_sel, cells: row_cells(&app.procs[at], container) },
        );
        assert(forall|j: int| 0 <= j < k ==> rows@[j] == was[j]);
        k = k + 1;
    }
    rows
}

fn pane_window(height: u16, total: usize, sel: usize, scroll: usize) -> (r: (usize, usize, usize))
    requires
        3 <= height,
    ensures
        r.0 == rows_shown(height, total as nat),
        r.1 == cursor(sel as int, total as nat),
        r.2 == first_row(scroll as int, r.1 as int, r.0 as int, total as nat),
        r.2 + r.0 <= total,
{
    let room: usize = height as usize - 3;
    let shown: usize = if room < total {
        room
    } else {
        total
    };
    let at: usize = if total == 0 {
        0
    } else if sel < total {
        sel
    } else {
        total - 1
    };
    let mut first: usize = if at < scroll {
        at
    } else if shown > 0 && at - scroll >= shown {
        at + 1 - shown
    } else {
        scroll
    };
    if first > total - shown {
        first = total - shown;
    }
    (shown, at, first)
}

impl App {
    /// Lays out the process pane: the rows follow the cursor, and what a click
    /// can reach is remembered.
    #[verifier::spinoff_prover]
    #[verifier::rlimit(40)]
    pub fn lay_out_processes(&mut self, area: Rect) -> (view: ProcsView)
        requires
            area.y + area.height <= 0xffff,
        ensures
            procs_laid_out(*old(self), *final(self), area, view),
            old(self).wf() ==> final(self).wf(),
    {
        let ghost before = *self;
        if area.height < 3 {
            self.proc_visible = 0;
            return ProcsView::Hidden;
        }
        let (shown, sel, first) = pane_window(
            area.height,
            self.procs.len(),
            self.proc_sel,
            self.proc_scroll,
        );
        self.proc_visible = shown;
        self.proc_sel = sel;
        self.proc_scroll = first;
        self.draw_pane(area, first, shown)
    }

    fn draw_pane(&self, area: Rect, first: usize, shown: usize) -> (view: ProcsView)
        requires
            3 <= area.height,
            area.y + area.height <= 0xffff,
            first + shown <= self.procs@.len(),
        ensures
            pane_shown(*self, area, first as int, shown as int, view),
    {
        let total: usize = self.procs.len();
        let counter = counter_text(self, first, shown);
        if total == 0 {
            let message = empty_message(self);
            return ProcsView::Empty { counter, message };
        }
        let container = has_container(&self.procs);
        let headings = heading_list(self, container);
        let rows = draw_rows(self, first, shown, container);
        let scroll = if total > shown {
            Some(
                Scroll {
                    track: Rect {
                        x: area.x,
                        y: area.y + 2,
                        width: area.width,
                        height: area.height - 3,
                    },
                    position: first,
                    last: total - shown,
                    viewport: shown,
                },
            )
        } else {
            None
        };
        ProcsView::Table { counter, headings, container, rows, scroll }
    }
}

// ---------------------------------------------------------------- laws

/// The pane shows as many rows as it has room for below its header and within
/// its border, and no more than there are.
pub proof fn the_pane_shows_what_it_has_room_for(height: u16, total: nat)
    ensures
        0 <= rows_shown(height, total) <= total,
        height >= 3 ==> rows_shown(height, total) + 3 <= height,
        height < 3 ==> rows_shown(height, total) == 0,
        rows_shown(height, total) == total || height < 3 || rows_shown(height, total) + 3 == height,
{
}

/// The window stays where it is while the cursor is in it, and otherwise moves
/// until the cursor's row is the first or the last of it.
pub proof fn the_window_moves_no_further_than_needed(scroll: int, sel: int, shown: int, total: nat)
    requires
        0 <= sel < total,
        0 <= scroll,
        0 < shown <= total,
    ensures
        scroll <= sel < scroll + shown && scroll + shown <= total ==> first_row(
            scroll,
            sel,
            shown,
            total,
        ) == scroll,
        sel < scroll && sel + shown <= total ==> first_row(scroll, sel, shown, total) == sel,
        sel >= scroll + shown ==> first_row(scroll, sel, shown, total) + shown == sel + 1,
        cursor(sel, total) == sel,
        cursor(total + sel, total) == total - 1,
{
}

/// The counter says how many rows there are, which of them are shown where not
/// all are, and the filter where there is one.
pub proof fn the_counter_tells_what_is_shown(app: App, first: int, shown: int)
    requires
        0 <= first,
        0 <= shown,
        first + shown <= app.procs@.len(),
    ensures
        contains_text(counter(app, first, shown), decimal(app.procs@.len())),
        contains_text(counter(app, first, shown), sort_label(app.sort_by) + arrow(app.sort_desc)),
        app.filter@.len() > 0 ==> has_prefix(counter(app, first, shown), "filter:"@ + app.filter@),
        0 < shown < app.procs@.len() ==> contains_text(
            counter(app, first, shown),
            decimal((first + 1) as nat) + "-"@ + decimal((first + shown) as nat) + "/"@ + decimal(
                app.procs@.len(),
            ),
        ),
{
    let total = app.procs@.len();
    let sorted = sort_label(app.sort_by) + arrow(app.sort_desc);
    let text = counter(app, first, shown);
    let a = decimal((first + 1) as nat);
    let b = decimal((first + shown) as nat);
    let f = "filter:"@ + app.filter@;
    let sep = " · "@;
    let head = if app.filter@.len() == 0 {
        sorted
    } else {
        f + sep + sorted
    };
    lemma_found_at_the_end(head + sep, a, "-"@, b, "/"@, decimal(total));
    lemma_found_at_the_end(head + sep, decimal(total), Seq::empty(), Seq::empty(), Seq::empty(), Seq::empty());
    if total > shown && shown > 0 {
        assert(text == head + sep + a + "-"@ + b + "/"@ + decimal(total));
        lemma_found_in_head(f, sep, sorted, sep, a, "-"@, b, "/"@, decimal(total));
    } else {
        assert(text == head + sep + decimal(total));
        let e = Seq::<char>::empty();
        lemma_found_in_head(f, sep, sorted, sep, decimal(total), e, e, e, e);
        assert(text + e + e + e + e =~= text);
    }
}

proof fn lemma_regroup(x: Seq<char>, y: Seq<char>, z: Seq<char>)
    ensures
        x + y + z == x + (y + z),
        z.len() == 0 ==> x + y + z == x + y,
{
    assert(x + y + z =~= x + (y + z));
    if z.len() == 0 {
        assert(x + y + z =~= x + y);
    }
}

proof fn lemma_found_at_the_end(
    head: Seq<char>,
    a: Seq<char>,
    d: Seq<char>,
    b: Seq<char>,
    s: Seq<char>,
    n: Seq<char>,
)
    ensures
        contains_text(head + a + d + b + s + n, a + d + b + s + n),
        contains_text(head + a + d + b + s + n, n),
        contains_text(head + a, a),
{
    let e = Seq::<char>::empty();
    let all = head + a + d + b + s + n;
    a_text_is_found_where_it_stands(head, a + d + b + s + n, e);
    lemma_regroup(head, a, d);
    lemma_regroup(head, a + d, b);
    lemma_regroup(head, a + d + b, s);
    lemma_regroup(head, a + d + b + s, n);
    lemma_regroup(head, a + d + b + s + n, e);
    a_text_is_found_where_it_stands(head + a + d + b + s, n, e);
    lemma_regroup(head + a + d + b + s, n, e);
    a_text_is_found_where_it_stands(head, a, e);
    lemma_regroup(head, a, e);
}

proof fn lemma_found_in_head(
    f: Seq<char>,
    m: Seq<char>,
    sorted: Seq<char>,
    sep: Seq<char>,
    a: Seq<char>,
    d: Seq<char>,
    b: Seq<char>,
    s: Seq<char>,
    n: Seq<char>,
)
    ensures
        contains_text(sorted + sep + a + d + b + s + n, sorted),
        contains_text(f + m + sorted + sep + a + d + b + s + n, sorted),
        has_prefix(f + m + sorted + sep + a + d + b + s + n, f),
{
    let e = Seq::<char>::empty();
    let rest = sep + a + d + b + s + n;
    a_text_is_found_where_it_stands(e, sorted, rest);
    let x = f + m + sorted;
    lemma_regroup(sorted, sep, a);
    lemma_regroup(sorted, sep + a, d);
    lemma_regroup(sorted, sep + a + d, b);
    lemma_regroup(sorted, sep + a + d + b, s);
    lemma_regroup(sorted, sep + a + d + b + s, n);
    assert(e + sorted =~= sorted);
    a_text_is_found_where_it_stands(f + m, sorted, rest);
    lemma_regroup(x, sep, a);
    lemma_regroup(x, sep + a, d);
    lemma_regroup(x, sep + a + d, b);
    lemma_regroup(x, sep + a + d + b, s);
    lemma_regroup(x, sep + a + d + b + s, n);
    a_text_is_found_where_it_stands(e, f, m + sorted + rest);
    lemma_regroup(f, m, sorted);
    lemma_regroup(f, m + sorted, rest);
}

/// The arrow stands in the heading of the column that the table is sorted by,
/// pointing down for a descending sort, and in no other.
pub proof fn the_sorted_column_is_marked(app: App)
    ensures
        arrow(true) != arrow(false),
        ({
            let h = headings(app);
            let mark = arrow(app.sort_desc);
            &&& h[0] == (if app.sort_by == SortBy::Pid {
                "PID"@ + mark
            } else {
                "PID"@
            })
            &&& h[4] == (if app.sort_by == SortBy::GpuUtil {
                "GPU%"@ + mark
            } else {
                "GPU%"@
            })
            &&& h[5] == (if app.sort_by == SortBy::GpuMem {
                "GPU MEM"@ + mark
            } else {
                "GPU MEM"@
            })
            &&& h[6] == (if app.sort_by == SortBy::Cpu {
                "CPU%"@ + mark
            } else {
                "CPU%"@
            })
            &&& h[7] == (if app.sort_by == SortBy::HostMem {
                "HOST MEM"@ + mark
            } else {
                "HOST MEM"@
            })
            &&& h.last() == "COMMAND"@
            &&& h.contains("CONTAINER"@) <==> any_container(app.procs@)
        }),
{
    reveal_strlit("↓");
    reveal_strlit("↑");
    assert(arrow(true)[0] == '↓' && arrow(false)[0] == '↑');
    let h = headings(app);
    reveal_strlit("CONTAINER");
    reveal_strlit("COMMAND");
    reveal_strlit("PID");
    reveal_strlit("USER");
    reveal_strlit("DEV");
    reveal_strlit("TYPE");
    reveal_strlit("GPU%");
    reveal_strlit("GPU MEM");
    reveal_strlit("CPU%");
    reveal_strlit("HOST MEM");
    assert("CONTAINER"@.len() == 9);
    assert("HOST MEM"@[0] == 'H' && "CONTAINER"@[0] == 'C');
    if any_container(app.procs@) {
        assert(h[8] == "CONTAINER"@);
    } else if h.contains("CONTAINER"@) {
        let w = choose|w: int| 0 <= w < h.len() && h[w] == "CONTAINER"@;
        assert(h[w].len() == 9);
        assert(w == 7);
        assert(h[7][0] == 'H');
    }
}

/// A row has a cell under every heading: its pid, user, card and kind, its
/// figures each under its own, and its command last; what could not be read
/// says so.
pub proof fn a_row_has_a_cell_under_every_heading(app: App, p: ProcRow, n: u64)
    ensures
        ({
            let c = any_container(app.procs@);
            let row = cells(p, c);
            &&& row.len() == headings(app).len()
            &&& row[0] == text_cell(decimal(p.pid as nat))
            &&& row[1] == text_cell(p.user@)
            &&& row[2] == text_cell(decimal(p.gpu_index as nat))
            &&& row[3] == text_cell(kind_label(p.kind))
            &&& p.gpu_util_pct matches Some(v) ==> row[4][0] == wide(v)
            &&& p.gpu_util_pct is None ==> row[4] == text_cell("N/A"@)
            &&& p.gpu_mem_bytes == Some(n) ==> row[5] == text_cell(mib(Some(n), "N/A"@))
            &&& p.gpu_mem_bytes is None ==> row[5] == text_cell("N/A"@)
            &&& p.cpu_pct matches Some(v) ==> (row[6][0] matches PartModel::Fixed32 { value32, .. }
                && value32 == v)
            &&& p.cpu_pct is None ==> row[6] == text_cell("N/A"@)
            &&& p.host_mem_bytes == Some(n) ==> row[7] == text_cell(mib(Some(n), "N/A"@))
            &&& p.host_mem_bytes is None ==> row[7] == text_cell("N/A"@)
            &&& row.last() == text_cell(p.command@)
            &&& c ==> (p.container matches Some(s) ==> row[8] == text_cell(s@))
        }),
{
}

/// Memory shows in whole mebibytes, rounded down.
pub proof fn memory_shows_in_whole_mebibytes(k: u64, r: u64, unknown: Seq<char>)
    requires
        k < 0x1000_0000_0000,
        r < 1048576,
    ensures
        mib(Some((k * 1048576 + r) as u64), unknown) == decimal(k as nat) + "MiB"@,
        mib(None, unknown) == unknown,
{
}

/// An empty table is put down to the filter where there is one, with how many
/// rows it hides, and to permissions otherwise.
pub proof fn an_empty_table_says_why(app: App)
    ensures
        app.filter@.len() > 0 ==> contains_text(empty_text(app), app.filter@) && contains_text(
            empty_text(app),
            decimal(app.all_procs@.len()),
        ),
        app.filter@.len() == 0 ==> empty_text(app)
            == "no GPU processes visible (need same-user or root for fdinfo)"@,
{
    let a = "no processes match filter '"@;
    let b = "' ("@;
    let n = decimal(app.all_procs@.len());
    let z = " hidden; press / to change)"@;
    a_text_is_found_where_it_stands(a, app.filter@, b + n + z);
    assert(a + app.filter@ + b + n + z =~= a + app.filter@ + (b + n + z));
    a_text_is_found_where_it_stands(a + app.filter@ + b, n, z);
}

/// Laying out the process pane keeps the cursor on a row and on screen, and
/// shows as many rows as there is room for; nothing else of the state changes.
pub proof fn laying_out_keeps_the_cursor_on_screen(
    before: App,
    after: App,
    area: Rect,
    view: ProcsView,
)
    requires
        procs_laid_out(before, after, area, view),
        before.procs@.len() <= usize::MAX,
    ensures
        area.height < 3 ==> view is Hidden && after.proc_visible == 0 && after.proc_sel
            == before.proc_sel && after.proc_scroll == before.proc_scroll,
        area.height >= 3 ==> after.proc_visible <= area.height - 3,
        area.height >= 3 ==> after.proc_visible <= before.procs@.len(),
        area.height >= 3 && before.procs@.len() >= area.height - 3 ==> after.proc_visible
            == area.height - 3,
        area.height >= 3 && before.procs@.len() < area.height - 3 ==> after.proc_visible
            == before.procs@.len(),
        area.height >= 3 && before.procs@.len() > 0 ==> after.proc_sel < before.procs@.len(),
        area.height >= 3 && before.proc_sel < before.procs@.len() ==> after.proc_sel
            == before.proc_sel,
        area.height > 3 && before.procs@.len() > 0 ==> after.proc_scroll <= after.proc_sel
            < after.proc_scroll + after.proc_visible,
        area.height >= 3 ==> after.proc_scroll + after.proc_visible <= before.procs@.len(),
        area.height >= 3 ==> (view is Empty <==> before.procs@.len() == 0),
        area.height >= 3 ==> (view is Table <==> before.procs@.len() > 0),
        after.procs == before.procs && after.gpus == before.gpus,
        after.selected == before.selected && after.filter == before.filter,
        after.sort_by == before.sort_by && after.sort_desc == before.sort_desc,
{
    if area.height >= 3 {
        let total = before.procs@.len();
        let shown = rows_shown(area.height, total);
        let sel = cursor(before.proc_sel as int, total);
        let first = first_row(before.proc_scroll as int, sel, shown, total);
        assert(0 <= shown <= total);
        assert(0 <= sel <= total);
        assert(0 <= first <= total);
    }
}

/// The rows drawn are those of the table from the first shown on, in its order,
/// each with its own cells; only the cursor's row is marked, and a scrollbar
/// shows just where rows are left out.
pub proof fn the_rows_drawn_are_the_tables(
    app: App,
    area: Rect,
    first: int,
    shown: int,
    view: ProcsView,
    k: int,
)
    requires
        pane_shown(app, area, first, shown, view),
        app.procs@.len() > 0,
        0 <= first,
        first + shown <= app.procs@.len() <= usize::MAX,
        0 <= k < shown,
        3 <= area.height,
        area.y + area.height <= 0xffff,
    ensures
        view matches ProcsView::Table { counter: c, headings: h, container, rows, scroll } && {
            &&& c@ == counter(app, first, shown)
            &&& rows@.len() == shown
            &&& cell_models(rows@[k].cells@) == cells(app.procs@[first + k], container)
            &&& rows@[k].cells@.len() == h@.len()
            &&& rows@[k].selected <==> app.proc_sel == first + k
            &&& container <==> any_container(app.procs@)
            &&& scroll is Some <==> shown < app.procs@.len()
            &&& scroll matches Some(s) ==> s.position == first && s.viewport == shown && s.last
                + shown == app.procs@.len() && s.track.y == area.y + 2 && s.track.height
                == area.height - 3 && s.track.x == area.x && s.track.width == area.width
        },
{
    if let ProcsView::Table { counter: c, headings: h, container, rows, scroll } = view {
        let row = rows@[k];
        assert(row.selected == (first + k == app.proc_sel));
        assert(cell_models(row.cells@).len() == row.cells@.len());
        assert(string_texts(h@).len() == h@.len());
    }
}

/// The widths of the columns before the command, which takes what is left.
pub open spec fn widths(container: bool) -> Seq<u16> {
    if container {
        seq![8u16, 10, 3, 8, 5, 9, 5, 9, 19]
    } else {
        seq![8u16, 10, 3, 8, 5, 9, 5, 9]
    }
}

/// Every heading but the last has its width, the same with and without the
/// container column.
pub proof fn every_heading_has_its_width(app: App, k: int)
    requires
        0 <= k < widths(any_container(app.procs@)).len(),
    ensures
        widths(any_container(app.procs@)).len() + 1 == headings(app).len(),
        k < 8 ==> widths(true)[k] == widths(false)[k],
        widths(any_container(app.procs@))[k] >= 3,
{
}

} // verus!
