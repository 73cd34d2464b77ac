//! The event loop's decisions: pacing, key routing by input mode, mouse
//! hit-testing, and the startup choices.
use vstd::prelude::*;
use crate::app::control::{applied, Effect};
use crate::app::table::{cursor_after, table_is_current, without_last_word};
use crate::app::{clamp_tick_ms, clamped_tick, edge, App, Focus, InputMode, Rect, UiState, SPLASH_NS};
use crate::keys::Action;
use crate::text::{chars_of, slice_of, string_of, trim, trim_end};

verus! {

/// Splash animation frame budget, in milliseconds.
pub const SPLASH_FRAME_MS: u64 = 60;

/// Nanoseconds in a millisecond.
pub const NS_PER_MS: u128 = 1_000_000;

/// `a - b`, or zero.
pub open spec fn remaining(a: nat, b: nat) -> nat {
    if a > b {
        (a - b) as nat
    } else {
        0
    }
}

/// The wait until the next frame or the next poll is due, whichever is first.
pub open spec fn wait_of(splash: bool, tick_ms: u64, since_draw: nat, since_poll: nat) -> nat {
    let tick = tick_ms as nat * NS_PER_MS as nat;
    let frame = if splash {
        SPLASH_FRAME_MS as nat * NS_PER_MS as nat
    } else {
        tick
    };
    let draw = remaining(frame, since_draw);
    let poll = remaining(tick, since_poll);
    if draw < poll {
        draw
    } else {
        poll
    }
}

/// How long to wait for input, in nanoseconds: until the next frame or the
/// next poll is due, whichever is first. Frames and polls run on separate
/// clocks.
pub fn event_timeout(splash: bool, tick_ms: u64, since_draw: u128, since_poll: u128) -> (t: u128)
    ensures
        t == wait_of(splash, tick_ms, since_draw as nat, since_poll as nat),
{
    assert(tick_ms as u128 * NS_PER_MS <= u128::MAX) by (nonlinear_arith)
        requires
            tick_ms <= u64::MAX,
            NS_PER_MS == 1_000_000,
    ;
    let tick: u128 = tick_ms as u128 * NS_PER_MS;
    let frame: u128 = if splash { SPLASH_FRAME_MS as u128 * NS_PER_MS } else { tick };
    let draw: u128 = if frame > since_draw { frame - since_draw } else { 0 };
    let poll: u128 = if tick > since_poll { tick - since_poll } else { 0 };
    if draw < poll {
        draw
    } else {
        poll
    }
}

/// Whether the next poll is due.
pub fn poll_due(tick_ms: u64, since_poll: u128) -> (b: bool)
    ensures
        b == (since_poll >= tick_ms * NS_PER_MS),
{
    assert(tick_ms as u128 * NS_PER_MS <= u128::MAX) by (nonlinear_arith)
        requires
            tick_ms <= u64::MAX,
            NS_PER_MS == 1_000_000,
    ;
    since_poll >= tick_ms as u128 * NS_PER_MS
}

// ---------------------------------------------------------------- keys

/// A key as the modal inputs read it.
#[derive(Clone, Copy, PartialEq, Eq, Structural, Debug)]
pub enum Key {
    Char(char),
    Enter,
    Esc,
    Backspace,
    Other,
}

/// What is left for the caller after a key.
#[derive(Clone, Copy, PartialEq, Eq, Structural, Debug)]
pub enum KeyStep {
    /// Draw again before anything else.
    Redraw,
    Handled,
    Quit,
    /// The pending signal was confirmed.
    Confirm,
    /// The key goes to the key map.
    Resolve,
}

pub open spec fn splash_up(app: &App, now_ns: u64) -> bool {
    !app.splash_skipped && now_ns - app.started_ns < SPLASH_NS
}

/// `s` without its last character.
pub open spec fn popped(s: Seq<char>) -> Seq<char> {
    if s.len() > 0 {
        s.drop_last()
    } else {
        s
    }
}

/// What a key typed into the filter does: control chords edit or quit and are
/// never typed.
pub open spec fn filter_key(before: App, key: Key, ctrl: bool, after: &App, step: KeyStep) -> bool {
    let typed = App { filter_input: after.filter_input, ..before };
    match key {
        Key::Char(c) => if ctrl {
            if c == 'c' {
                step == KeyStep::Quit && *after == before
            } else if c == 'u' {
                step == KeyStep::Handled && *after == typed && after.filter_input@.len() == 0
            } else if c == 'w' {
                step == KeyStep::Handled && *after == typed && after.filter_input@
                    == without_last_word(trim_end(before.filter_input@))
            } else {
                step == KeyStep::Handled && *after == before
            }
        } else {
            step == KeyStep::Handled && *after == typed && after.filter_input@
                == before.filter_input@.push(c)
        },
        Key::Enter => {
            &&& step == KeyStep::Handled
            &&& after.filter@ == trim(before.filter_input@)
            &&& table_is_current(after)
            &&& after.proc_sel == cursor_after(before.procs@, before.proc_sel, after.procs@)
            &&& *after == (App {
                filter: after.filter,
                input_mode: InputMode::Normal,
                procs: after.procs,
                proc_sel: after.proc_sel,
                ..before
            })
        },
        Key::Esc => step == KeyStep::Handled && *after == (App {
            input_mode: InputMode::Normal,
            ..before
        }),
        Key::Backspace => step == KeyStep::Handled && *after == typed && after.filter_input@
            == popped(before.filter_input@),
        Key::Other => step == KeyStep::Handled && *after == before,
    }
}

/// What a pressed key does: it ends the splash, goes to the modal input that
/// is open, closes the help overlay, or is left to the key map.
pub open spec fn key_taken(
    before: App,
    key: Key,
    ctrl: bool,
    now_ns: u64,
    after: &App,
    step: KeyStep,
) -> bool {
    if splash_up(&before, now_ns) {
        step == KeyStep::Redraw && *after == (App { splash_skipped: true, ..before })
    } else {
        match before.input_mode {
            InputMode::Filter => filter_key(before, key, ctrl, after, step),
            InputMode::Confirm => if key == Key::Char('y') || key == Key::Char('Y') {
                step == KeyStep::Confirm && *after == before
            } else {
                step == KeyStep::Handled && *after == (App {
                    pending_kill: None,
                    input_mode: InputMode::Normal,
                    ..before
                })
            },
            InputMode::Normal => if before.show_help {
                step == KeyStep::Redraw && *after == (App { show_help: false, ..before })
            } else {
                step == KeyStep::Resolve && *after == before
            },
        }
    }
}

impl App {
    fn on_filter_key(&mut self, key: Key, ctrl: bool) -> (step: KeyStep)
        requires
            old(self).wf(),
        ensures
            final(self).wf(),
            filter_key(*old(self), key, ctrl, final(self), step),
    {
        match key {
            Key::Char(c) => {
                if ctrl {
                    if c == 'c' {
                        return KeyStep::Quit;
                    } else if c == 'u' {
                        self.filter_input = String::new();
                    } else if c == 'w' {
                        self.filter_delete_word();
                    }
                } else {
                    self.filter_input.push(c);
                }
            },
            Key::Enter => self.commit_filter(),
            Key::Esc => {
                self.input_mode = InputMode::Normal;
            },
            Key::Backspace => {
                let cs = chars_of(&self.filter_input);
                let n: usize = if cs.len() > 0 { cs.len() - 1 } else { 0 };
                let rest = slice_of(&cs, 0, n);
                assert(rest@ =~= popped(cs@));
                self.filter_input = string_of(&rest);
            },
            Key::Other => {},
        }
        KeyStep::Handled
    }

    /// Takes a pressed key.
    pub fn on_key(&mut self, key: Key, ctrl: bool, now_ns: u64) -> (step: KeyStep)
        requires
            old(self).wf(),
        ensures
            final(self).wf(),
            key_taken(*old(self), key, ctrl, now_ns, final(self), step),
    {
        if self.splash_active(now_ns) {
            self.splash_skipped = true;
            return KeyStep::Redraw;
        }
        match self.input_mode {
            InputMode::Filter => self.on_filter_key(key, ctrl),
            InputMode::Confirm => {
                let yes = match key {
                    Key::Char(c) => c == 'y' || c == 'Y',
                    _ => false,
                };
                if yes {
                    KeyStep::Confirm
                } else {
                    self.pending_kill = None;
                    self.input_mode = InputMode::Normal;
                    KeyStep::Handled
                }
            },
            InputMode::Normal => {
                if self.show_help {
                    self.show_help = false;
                    KeyStep::Redraw
                } else {
                    KeyStep::Resolve
                }
            },
        }
    }
}

// ---------------------------------------------------------------- mouse

#[derive(Clone, Copy, PartialEq, Eq, Structural, Debug)]
pub enum MouseKind {
    ScrollDown,
    ScrollUp,
    LeftDown,
    Other,
}

#[derive(Clone, Copy, PartialEq, Eq, Structural, Debug)]
pub struct Mouse {
    pub kind: MouseKind,
    pub col: u16,
    pub row: u16,
}

/// The index of the first card whose rectangle covers the cell.
pub open spec fn card_under(cards: Seq<(Rect, usize)>, col: u16, row: u16, from: int) -> Option<usize>
    decreases cards.len() - from,
{
    if from < 0 || from >= cards.len() {
        None
    } else if cards[from].0.covers(col, row) {
        Some(cards[from].1)
    } else {
        card_under(cards, col, row, from + 1)
    }
}

/// The table row under a screen row: rows start below the pane's top border
/// and header and end before its bottom border, and only rows on screen count.
pub open spec fn row_under(app: &App, row: u16) -> Option<int> {
    let first = app.proc_rect.y + 2;
    let bottom = edge(app.proc_rect.y, app.proc_rect.height);
    if first <= row && row < bottom - 1 && row - first < app.proc_visible {
        Some(app.proc_scroll + (row - first))
    } else {
        None
    }
}

/// What a mouse event does to a session with no modal open: wheel and click
/// focus the pane under the cursor, the wheel moves in it, a click selects what
/// was clicked.
pub open spec fn mouse_taken(before: App, m: Mouse, after: &App) -> bool {
    let in_procs = before.proc_rect.covers(m.col, m.row);
    let in_gpus = before.gpus_rect.covers(m.col, m.row);
    let on_procs = App { focus: Focus::Procs, ..before };
    let on_gpus = App { focus: Focus::Gpus, ..before };
    match m.kind {
        MouseKind::ScrollDown => if in_procs {
            applied(on_procs, Action::ProcScrollDown, 0, after, Effect::Continue)
        } else if in_gpus {
            applied(on_gpus, Action::NextGpu, 0, after, Effect::Continue)
        } else {
            *after == before
        },
        MouseKind::ScrollUp => if in_procs {
            applied(on_procs, Action::ProcScrollUp, 0, after, Effect::Continue)
        } else if in_gpus {
            applied(on_gpus, Action::PrevGpu, 0, after, Effect::Continue)
        } else {
            *after == before
        },
        MouseKind::LeftDown => if in_procs {
            *after == (match row_under(&before, m.row) {
                Some(i) => App { proc_sel: i as usize, ..on_procs },
                None => on_procs,
            })
        } else if in_gpus {
            *after == (match card_under(before.card_rects@, m.col, m.row, 0) {
                Some(i) => App { selected: i, ..on_gpus },
                None => on_gpus,
            })
        } else {
            *after == before
        },
        MouseKind::Other => *after == before,
    }
}

impl App {
    /// Takes a mouse event; says whether to draw again before anything else.
    /// An open modal owns the screen and the event goes nowhere.
    #[verifier::rlimit(30)]
    pub fn on_mouse(&mut self, m: Mouse, now_ns: u64) -> (redraw: bool)
        requires
            old(self).wf(),
        ensures
            final(self).wf(),
            mouse_answered(*old(self), m, now_ns, final(self), redraw),
    {
        if self.splash_active(now_ns) {
            self.splash_skipped = true;
            return true;
        }
        let modal = match self.input_mode {
            InputMode::Normal => self.show_help,
            _ => true,
        };
        if modal {
            return true;
        }
        let in_procs = self.proc_rect.contains(m.col, m.row);
        let in_gpus = self.gpus_rect.contains(m.col, m.row);
        match m.kind {
            MouseKind::ScrollDown => {
                if in_procs {
                    self.focus = Focus::Procs;
                    self.proc_down();
                } else if in_gpus {
                    self.focus = Focus::Gpus;
                    self.next_gpu();
                }
            },
            MouseKind::ScrollUp => {
                if in_procs {
                    self.focus = Focus::Procs;
                    self.proc_up();
                } else if in_gpus {
                    self.focus = Focus::Gpus;
                    self.prev_gpu();
                }
            },
            MouseKind::LeftDown => {
                if in_procs {
                    self.focus = Focus::Procs;
                    if let Some(i) = self.clicked_row(m.row) {
                        self.proc_sel = i;
                    }
                } else if in_gpus {
                    self.focus = Focus::Gpus;
                    if let Some(i) = self.clicked_card(m.col, m.row) {
                        self.selected = i;
                    }
                }
            },
            MouseKind::Other => {},
        }
        false
    }

    fn clicked_row(&self, row: u16) -> (r: Option<usize>)
        requires
            self.wf(),
        ensures
            match r {
                Some(i) => row_under(self, row) == Some(i as int),
                None => row_under(self, row) is None,
            },
    {
        let first: u32 = self.proc_rect.y as u32 + 2;
        let sum: u32 = self.proc_rect.y as u32 + self.proc_rect.height as u32;
        let bottom: u32 = if sum > 0xffff { 0xffff } else { sum };
        let at: u32 = row as u32;
        if first <= at && at + 1 < bottom {
            let offset: usize = (at - first) as usize;
            if offset < self.proc_visible {
                return Some(self.proc_scroll + offset);
            }
        }
        None
    }

    fn clicked_card(&self, col: u16, row: u16) -> (r: Option<usize>)
        ensures
            r == card_under(self.card_rects@, col, row, 0),
    {
        let mut i: usize = 0;
        while i < self.card_rects.len()
            invariant
                i <= self.card_rects.len(),
                card_under(self.card_rects@, col, row, 0) == card_under(
                    self.card_rects@,
                    col,
                    row,
                    i as int,
                ),
            decreases self.card_rects.len() - i,
        {
            let (rect, index) = self.card_rects[i];
            if rect.contains(col, row) {
                return Some(index);
            }
            i = i + 1;
        }
        None
    }
}

// ---------------------------------------------------------------- startup

/// The poll interval to start with: the command line's, else the persisted one
/// that still counts, else the configured one, brought into range.
pub open spec fn starting_tick(cli: Option<u64>, state: Option<UiState>, config: u64) -> u64 {
    clamped_tick(
        match (cli, state) {
            (Some(v), _) => v,
            (None, Some(s)) => match s.sticky() {
                Some(v) => v,
                None => config,
            },
            (None, None) => config,
        },
    )
}

pub fn startup_tick(cli: Option<u64>, state: &Option<UiState>, config: u64) -> (t: u64)
    ensures
        t == starting_tick(cli, *state, config),
{
    let chosen: u64 = match cli {
        Some(v) => v,
        None => match state {
            Some(s) => match s.sticky_tick_ms() {
                Some(v) => v,
                None => config,
            },
            None => config,
        },
    };
    clamp_tick_ms(chosen)
}

/// Whether the starting interval stays persisted: only an interval that an
/// earlier session chose by key does.
pub fn startup_sticky(cli: Option<u64>, state: &Option<UiState>) -> (b: bool)
    ensures
        b == (cli is None && (*state matches Some(s) && s.tick_ms_explicit == Some(true))),
{
    match (cli, state) {
        (None, Some(s)) => s.tick_chosen_by_key(),
        _ => false,
    }
}

/// The gap between the two polls of a one-shot run, in milliseconds.
pub open spec fn gap_of(tick_ms: u64) -> u64 {
    if tick_ms < 100 {
        100
    } else if tick_ms > 1000 {
        1000
    } else {
        tick_ms
    }
}

pub fn priming_gap(tick_ms: u64) -> (t: u64)
    ensures
        t == gap_of(tick_ms),
{
    if tick_ms < 100 {
        100
    } else if tick_ms > 1000 {
        1000
    } else {
        tick_ms
    }
}

// ---------------------------------------------------------------- laws

/// The loop never waits past the next poll or the next frame, and does not
/// wait exactly when one of them is due.
pub proof fn waits_end_when_something_is_due(
    splash: bool,
    tick_ms: u64,
    since_draw: nat,
    since_poll: nat,
)
    ensures
        wait_of(splash, tick_ms, since_draw, since_poll) + since_poll <= tick_ms * NS_PER_MS
            || wait_of(splash, tick_ms, since_draw, since_poll) == 0,
        since_poll >= tick_ms * NS_PER_MS ==> wait_of(splash, tick_ms, since_draw, since_poll) == 0,
        splash && since_draw < SPLASH_FRAME_MS * NS_PER_MS && since_poll < tick_ms * NS_PER_MS
            ==> wait_of(splash, tick_ms, since_draw, since_poll) > 0,
        !splash && since_draw < tick_ms * NS_PER_MS && since_poll < tick_ms * NS_PER_MS
            ==> wait_of(splash, tick_ms, since_draw, since_poll) > 0,
{
}

/// A mouse event opens and closes no dialog and types nothing.
pub proof fn the_mouse_leaves_dialogs_alone(before: App, m: Mouse, after: &App)
    requires
        mouse_taken(before, m, after),
    ensures
        after.pending_kill == before.pending_kill,
        after.input_mode == before.input_mode,
        after.filter_input == before.filter_input,
        after.show_help == before.show_help,
{
}

/// A click in the process pane selects a row on screen or none.
pub proof fn clicks_select_rows_on_screen(app: &App, row: u16)
    requires
        app.wf(),
    ensures
        row_under(app, row) matches Some(i) ==> app.proc_scroll <= i < app.proc_scroll
            + app.proc_visible,
{
}

/// No key typed while the confirmation is open signals anything but `y`.
pub proof fn only_y_confirms(before: App, key: Key, ctrl: bool, now_ns: u64, after: &App, step: KeyStep)
    requires
        key_taken(before, key, ctrl, now_ns, after, step),
        before.input_mode == InputMode::Confirm,
        !splash_up(&before, now_ns),
    ensures
        step == KeyStep::Confirm <==> key == Key::Char('y') || key == Key::Char('Y'),
        step != KeyStep::Confirm ==> after.pending_kill is None && after.input_mode
            == InputMode::Normal,
{
}

/// The wait ends with the next frame or the next poll, whichever comes first,
/// and not a moment sooner.
pub proof fn the_wait_ends_with_the_first_that_is_due(
    splash: bool,
    tick_ms: u64,
    since_draw: nat,
    since_poll: nat,
)
    ensures
        ({
            let w = wait_of(splash, tick_ms, since_draw, since_poll);
            let tick = tick_ms as nat * 1_000_000;
            let frame = if splash {
                60_000_000
            } else {
                tick
            };
            &&& since_draw < frame && since_poll < tick ==> (w + since_draw == frame && w + since_poll
                <= tick) || (w + since_poll == tick && w + since_draw <= frame)
            &&& since_draw >= frame || since_poll >= tick ==> w == 0
        }),
{
}

/// A click on the k-th line of the table selects the k-th row on screen; the
/// pane's border, its header and the empty lines below select none.
pub proof fn a_click_selects_the_row_under_it(app: &App, k: int)
    requires
        app.proc_rect.y + app.proc_rect.height <= 0xffff,
        0 <= k,
        app.proc_rect.y + 2 + k <= 0xffff,
    ensures
        k < app.proc_visible && k + 3 < app.proc_rect.height ==> row_under(
            app,
            (app.proc_rect.y + 2 + k) as u16,
        ) == Some(app.proc_scroll + k),
        k >= app.proc_visible ==> row_under(app, (app.proc_rect.y + 2 + k) as u16) is None,
        row_under(app, app.proc_rect.y) is None,
        app.proc_rect.height > 1 ==> row_under(app, (app.proc_rect.y + 1) as u16) is None,
        app.proc_rect.height > 0 ==> row_under(
            app,
            (app.proc_rect.y + app.proc_rect.height - 1) as u16,
        ) is None,
{
}

/// A click on a card selects it: the first one drawn that covers the cell, and
/// none where none does.
pub proof fn a_click_selects_the_card_under_it(
    cards: Seq<(Rect, usize)>,
    col: u16,
    row: u16,
    from: int,
    k: int,
)
    requires
        0 <= from <= cards.len(),
    ensures
        from <= k < cards.len() && cards[k].0.covers(col, row) && (forall|j: int|
            from <= j < k ==> !(#[trigger] cards[j]).0.covers(col, row)) ==> card_under(
            cards,
            col,
            row,
            from,
        ) == Some(cards[k].1),
        (forall|j: int| from <= j < cards.len() ==> !(#[trigger] cards[j]).0.covers(col, row))
            ==> card_under(cards, col, row, from) is None,
    decreases cards.len() - from,
{
    if from < cards.len() {
        a_click_selects_the_card_under_it(cards, col, row, from + 1, k);
    }
}

/// Wheel and click act on the pane under the pointer and focus it; outside of
/// both panes they do nothing.
pub proof fn the_mouse_acts_on_the_pane_under_it(before: App, m: Mouse, after: &App)
    requires
        mouse_taken(before, m, after),
        !(m.kind is Other),
    ensures
        before.proc_rect.covers(m.col, m.row) ==> after.focus == Focus::Procs && after.selected
            == before.selected,
        !before.proc_rect.covers(m.col, m.row) && before.gpus_rect.covers(m.col, m.row)
            ==> after.focus == Focus::Gpus && after.proc_sel == before.proc_sel,
        !before.proc_rect.covers(m.col, m.row) && !before.gpus_rect.covers(m.col, m.row) ==> *after
            == before,
{
}

/// The wheel moves one row or one card, down with a turn down and up with a
/// turn up, and stops at the ends.
pub proof fn the_wheel_moves_one_step(before: App, m: Mouse, after: &App)
    requires
        mouse_taken(before, m, after),
        before.procs@.len() <= usize::MAX,
        before.gpus@.len() <= usize::MAX,
    ensures
        m.kind is ScrollDown && before.proc_rect.covers(m.col, m.row) && before.proc_sel + 1
            < before.procs@.len() ==> after.proc_sel == before.proc_sel + 1,
        m.kind is ScrollUp && before.proc_rect.covers(m.col, m.row) && before.proc_sel > 0
            ==> after.proc_sel == before.proc_sel - 1,
        m.kind is ScrollDown && !before.proc_rect.covers(m.col, m.row) && before.gpus_rect.covers(
            m.col,
            m.row,
        ) && before.selected + 1 < before.gpus@.len() ==> after.selected == before.selected + 1,
        m.kind is ScrollUp && !before.proc_rect.covers(m.col, m.row) && before.gpus_rect.covers(
            m.col,
            m.row,
        ) && before.selected > 0 ==> after.selected == before.selected - 1,
{
}

/// Backspace takes back the character that was typed last.
pub proof fn backspace_takes_back_what_was_typed(
    before: App,
    c: char,
    between: App,
    after: App,
    first: KeyStep,
    second: KeyStep,
)
    requires
        filter_key(before, Key::Char(c), false, &between, first),
        filter_key(between, Key::Backspace, false, &after, second),
    ensures
        between.filter_input@.len() == before.filter_input@.len() + 1,
        between.filter_input@.last() == c,
        after.filter_input@ == before.filter_input@,
        after.filter == before.filter && after.procs == before.procs,
{
    assert(before.filter_input@.push(c).drop_last() =~= before.filter_input@);
}

/// Only Enter puts a filter into effect: until then, and after Escape, the
/// filter and the table are as they were.
pub proof fn only_enter_puts_a_filter_into_effect(
    before: App,
    key: Key,
    ctrl: bool,
    after: &App,
    step: KeyStep,
)
    requires
        filter_key(before, key, ctrl, after, step),
    ensures
        key != Key::Enter ==> after.filter == before.filter && after.procs == before.procs
            && after.proc_sel == before.proc_sel,
        after.input_mode == (if key == Key::Enter || key == Key::Esc {
            InputMode::Normal
        } else {
            before.input_mode
        }),
        step == KeyStep::Quit <==> ctrl && key == Key::Char('c'),
        after.all_procs == before.all_procs,
{
}

/// The first of command line, saved choice and settings that says anything
/// decides the interval, always within its bounds.
pub proof fn the_nearest_choice_decides_the_interval(
    v: u64,
    state: Option<UiState>,
    s: UiState,
    config: u64,
)
    ensures
        50 <= starting_tick(Some(v), state, config) <= 10_000,
        50 <= v <= 10_000 ==> starting_tick(Some(v), state, config) == v,
        50 <= s.tick_ms <= 10_000 && s.tick_ms_explicit != Some(false) ==> starting_tick(
            None,
            Some(s),
            config,
        ) == s.tick_ms,
        50 <= config <= 10_000 && s.tick_ms_explicit == Some(false) ==> starting_tick(
            None,
            Some(s),
            config,
        ) == config,
        50 <= config <= 10_000 ==> starting_tick(None, None, config) == config,
{
}

/// A one-shot run waits as long as the interval, between a tenth of a second
/// and a second.
pub proof fn a_one_shot_run_waits_within_bounds(t: u64, u: u64)
    ensures
        100 <= gap_of(t) <= 1000,
        100 <= t <= 1000 ==> gap_of(t) == t,
        t <= u ==> gap_of(t) <= gap_of(u),
{
}

/// What a mouse event does: it ends the splash, is swallowed by a popup, or acts
/// on the pane under it.
pub open spec fn mouse_answered(
    before: App,
    m: Mouse,
    now_ns: u64,
    after: &App,
    redraw: bool,
) -> bool {
    if splash_up(&before, now_ns) {
        redraw && *after == (App { splash_skipped: true, ..before })
    } else if before.show_help || before.input_mode != InputMode::Normal {
        redraw && *after == before
    } else {
        !redraw && mouse_taken(before, m, after)
    }
}

/// A mouse event behind the splash only ends it, one behind a popup does
/// nothing, and any other reaches the pane under it.
pub proof fn the_mouse_does_not_reach_behind_a_popup(
    before: App,
    m: Mouse,
    now_ns: u64,
    after: &App,
    redraw: bool,
)
    requires
        mouse_answered(before, m, now_ns, after, redraw),
    ensures
        splash_up(&before, now_ns) ==> redraw && after.splash_skipped && after.selected
            == before.selected && after.proc_sel == before.proc_sel && after.focus == before.focus,
        !splash_up(&before, now_ns) && (before.show_help || before.input_mode is Filter
            || before.input_mode is Confirm) ==> redraw && *after == before,
        !splash_up(&before, now_ns) && !before.show_help && before.input_mode is Normal ==> !redraw
            && mouse_taken(before, m, after),
{
}

} // verus!
