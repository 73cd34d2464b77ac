//! What each action does to the session.
use vstd::prelude::*;
use crate::app::process::the_first_row_of_a_process_is_found;
use crate::app::device::DeviceId;
use crate::app::kill::{dialog_refusal, says};
use crate::app::state::toggled;
use crate::app::table::{clamp_index, cursor_after, table_is_current};
use crate::app::{App, Focus, InputMode, SortBy, MAX_TICK_MS, MIN_TICK_MS};
use crate::keys::Action;

verus! {

/// What is left for the caller after an action.
#[derive(Clone, Copy, PartialEq, Eq, Structural, Debug)]
pub enum Effect {
    Continue,
    Quit,
    /// Look this process up, then open the kill dialog.
    Inspect { pid: u32, force: bool },
}

/// One further, stopping at the last of `len`.
pub open spec fn stepped(n: usize, len: nat) -> int {
    if n + 1 < len {
        n + 1
    } else if len == 0 {
        0
    } else {
        len - 1
    }
}

/// One back, stopping at the first.
pub open spec fn backed(n: usize) -> int {
    if n == 0 {
        0
    } else {
        n - 1
    }
}

/// The interval after `+`: half, but not below the floor.
pub open spec fn faster(tick: u64) -> u64 {
    if tick / 2 < MIN_TICK_MS {
        MIN_TICK_MS
    } else {
        tick / 2
    }
}

/// The interval after `-`: double, but not above the ceiling.
pub open spec fn slower(tick: u64) -> u64 {
    if tick * 2 > MAX_TICK_MS {
        MAX_TICK_MS
    } else {
        (tick * 2) as u64
    }
}

/// `after` is `before` with the table rebuilt.
pub open spec fn rebuilt(before: App, after: &App) -> bool {
    &&& table_is_current(after)
    &&& after.proc_sel == cursor_after(before.procs@, before.proc_sel, after.procs@)
    &&& *after == (App { procs: after.procs, proc_sel: after.proc_sel, ..before })
}

pub open spec fn next_gpu_of(app: App) -> App {
    App { selected: stepped(app.selected, app.gpus@.len()) as usize, ..app }
}

pub open spec fn prev_gpu_of(app: App) -> App {
    App { selected: backed(app.selected) as usize, ..app }
}

pub open spec fn proc_down_of(app: App) -> App {
    App { proc_sel: stepped(app.proc_sel, app.procs@.len()) as usize, ..app }
}

pub open spec fn proc_up_of(app: App) -> App {
    App { proc_sel: backed(app.proc_sel) as usize, ..app }
}

/// `after` is what `action` makes of `before`, and `e` what is left to do.
pub open spec fn applied(before: App, action: Action, now_ns: u64, after: &App, e: Effect) -> bool {
    match action {
        Action::Quit => e == Effect::Quit && *after == before,
        Action::TogglePause => e == Effect::Continue && *after == (App {
            paused: !before.paused,
            ..before
        }),
        Action::NextItem => e == Effect::Continue && *after == (match before.focus {
            Focus::Gpus => next_gpu_of(before),
            Focus::Procs => proc_down_of(before),
        }),
        Action::PrevItem => e == Effect::Continue && *after == (match before.focus {
            Focus::Gpus => prev_gpu_of(before),
            Focus::Procs => proc_up_of(before),
        }),
        Action::NextGpu => e == Effect::Continue && *after == next_gpu_of(before),
        Action::PrevGpu => e == Effect::Continue && *after == prev_gpu_of(before),
        Action::TickFaster => e == Effect::Continue && *after == (App {
            tick_ms: faster(before.tick_ms),
            tick_explicit: true,
            ..before
        }),
        Action::TickSlower => e == Effect::Continue && *after == (App {
            tick_ms: slower(before.tick_ms),
            tick_explicit: true,
            ..before
        }),
        Action::Digit(i) => {
            &&& e == Effect::Continue
            &&& if i >= before.gpus@.len() {
                *after == before
            } else if before.focus == Focus::Gpus && before.selected == i {
                &&& *after == (App { folded: after.folded, ..before })
                &&& after.folded@.dom() == toggled(&before, i)
            } else {
                *after == (App { focus: Focus::Gpus, selected: i, ..before })
            }
        },
        Action::FocusProcs => e == Effect::Continue && *after == (App {
            focus: Focus::Procs,
            ..before
        }),
        Action::Help => e == Effect::Continue && *after == (App { show_help: true, ..before }),
        Action::ProcScrollDown => e == Effect::Continue && *after == proc_down_of(before),
        Action::ProcScrollUp => e == Effect::Continue && *after == proc_up_of(before),
        Action::SortCycle => e == Effect::Continue && rebuilt(
            App { sort_by: before.sort_by.following(), ..before },
            after,
        ),
        Action::SortReverse => e == Effect::Continue && rebuilt(
            App { sort_desc: !before.sort_desc, ..before },
            after,
        ),
        Action::FilterOpen => e == Effect::Continue && *after == (App {
            focus: Focus::Procs,
            filter_input: before.filter,
            input_mode: InputMode::Filter,
            ..before
        }),
        Action::KillTerm => kill_asked(before, false, now_ns, after, e),
        Action::KillForce => kill_asked(before, true, now_ns, after, e),
    }
}

/// Asking to signal either says why not or asks for the process to be looked
/// up.
pub open spec fn kill_asked(before: App, force: bool, now_ns: u64, after: &App, e: Effect) -> bool {
    match dialog_refusal(&before) {
        Some(text) => e == Effect::Continue && says(before, after, text, now_ns),
        None => *after == before && e == (if before.proc_sel < before.procs@.len() {
            Effect::Inspect { pid: before.procs@[before.proc_sel as int].pid, force }
        } else {
            Effect::Continue
        }),
    }
}

fn step_index(n: usize, len: usize) -> (r: usize)
    ensures
        r == stepped(n, len as nat),
{
    if n < len {
        clamp_index(n + 1, len)
    } else {
        clamp_index(n, len)
    }
}

impl App {
    /// Applies an action.
    #[verifier::spinoff_prover]
    #[verifier::rlimit(60)]
    pub fn apply(&mut self, action: Action, now_ns: u64) -> (e: Effect)
        requires
            old(self).wf(),
        ensures
            final(self).wf(),
            applied(*old(self), action, now_ns, final(self), e),
    {
        match action {
            Action::Quit => return Effect::Quit,
            Action::TogglePause => {
                self.paused = !self.paused;
            },
            Action::NextItem => match self.focus {
                Focus::Gpus => self.next_gpu(),
                Focus::Procs => self.proc_down(),
            },
            Action::PrevItem => match self.focus {
                Focus::Gpus => self.prev_gpu(),
                Focus::Procs => self.proc_up(),
            },
            Action::NextGpu => self.next_gpu(),
            Action::PrevGpu => self.prev_gpu(),
            Action::TickFaster => {
                let half: u64 = self.tick_ms / 2;
                self.tick_ms = if half < MIN_TICK_MS { MIN_TICK_MS } else { half };
                self.tick_explicit = true;
            },
            Action::TickSlower => {
                self.tick_ms = if self.tick_ms > MAX_TICK_MS / 2 {
                    MAX_TICK_MS
                } else {
                    self.tick_ms * 2
                };
                self.tick_explicit = true;
            },
            Action::Digit(i) => {
                if i < self.gpus.len() {
                    let again = match self.focus {
                        Focus::Gpus => self.selected == i,
                        Focus::Procs => false,
                    };
                    if again {
                        self.toggle_fold(i);
                    } else {
                        self.focus = Focus::Gpus;
                        self.selected = i;
                    }
                }
            },
            Action::FocusProcs => {
                self.focus = Focus::Procs;
            },
            Action::Help => {
                self.show_help = true;
            },
            Action::ProcScrollDown => self.proc_down(),
            Action::ProcScrollUp => self.proc_up(),
            Action::SortCycle => {
                self.sort_by = self.sort_by.next();
                self.rebuild_proc_view();
            },
            Action::SortReverse => {
                self.sort_desc = !self.sort_desc;
                self.rebuild_proc_view();
            },
            Action::FilterOpen => {
                self.focus = Focus::Procs;
                self.filter_input = self.filter.clone();
                self.input_mode = InputMode::Filter;
            },
            Action::KillTerm => {
                if let Some(pid) = self.request_kill(now_ns) {
                    return Effect::Inspect { pid, force: false };
                }
            },
            Action::KillForce => {
                if let Some(pid) = self.request_kill(now_ns) {
                    return Effect::Inspect { pid, force: true };
                }
            },
        }
        Effect::Continue
    }

    /// Moves the cursor one row down, stopping at the last.
    pub fn proc_down(&mut self)
        ensures
            *final(self) == proc_down_of(*old(self)),
    {
        self.proc_sel = step_index(self.proc_sel, self.procs.len());
    }

    /// Moves the cursor one row up, stopping at the first.
    pub fn proc_up(&mut self)
        ensures
            *final(self) == proc_up_of(*old(self)),
    {
        if self.proc_sel > 0 {
            self.proc_sel = self.proc_sel - 1;
        }
    }

    /// Selects the next card, stopping at the last.
    pub fn next_gpu(&mut self)
        ensures
            *final(self) == next_gpu_of(*old(self)),
    {
        self.selected = step_index(self.selected, self.gpus.len());
    }

    /// Selects the previous card, stopping at the first.
    pub fn prev_gpu(&mut self)
        ensures
            *final(self) == prev_gpu_of(*old(self)),
    {
        if self.selected > 0 {
            self.selected = self.selected - 1;
        }
    }
}

// ---------------------------------------------------------------- laws

/// Every action keeps the poll interval within its bounds.
pub proof fn the_interval_stays_in_bounds(
    before: App,
    action: Action,
    now_ns: u64,
    after: &App,
    e: Effect,
)
    requires
        applied(before, action, now_ns, after, e),
        MIN_TICK_MS <= before.tick_ms <= MAX_TICK_MS,
    ensures
        MIN_TICK_MS <= after.tick_ms <= MAX_TICK_MS,
{
}

/// `+` never slows polling down and `-` never speeds it up, within the bounds.
pub proof fn faster_is_never_slower(tick: u64)
    ensures
        tick >= MIN_TICK_MS ==> faster(tick) <= tick,
        tick <= MAX_TICK_MS ==> slower(tick) >= tick,
        faster(tick) >= MIN_TICK_MS,
        slower(tick) <= MAX_TICK_MS,
{
}

/// Only the interval keys make the interval sticky.
pub proof fn only_the_interval_keys_stick(
    before: App,
    action: Action,
    now_ns: u64,
    after: &App,
    e: Effect,
)
    requires
        applied(before, action, now_ns, after, e),
        action != Action::TickFaster,
        action != Action::TickSlower,
    ensures
        after.tick_ms == before.tick_ms,
        after.tick_explicit == before.tick_explicit,
{
}

/// Cycling the sort column five times comes back to it.
pub proof fn the_sort_cycle_closes(s: SortBy)
    ensures
        s.following().following().following().following().following() == s,
        s.following() != s,
{
}

/// Moving never leaves the list.
pub proof fn moving_stays_in_the_list(n: usize, len: nat)
    requires
        n < len,
    ensures
        0 <= stepped(n, len) < len,
        0 <= backed(n) < len,
        n + 1 < len ==> stepped(n, len) == n + 1,
{
}

/// No action but quitting quits, and none signals without the dialog.
pub proof fn only_quit_quits(before: App, action: Action, now_ns: u64, after: &App, e: Effect)
    requires
        applied(before, action, now_ns, after, e),
    ensures
        e == Effect::Quit <==> action == Action::Quit,
        e matches Effect::Inspect { pid, force } ==> before.backend_local && before.focus
            == Focus::Procs,
{
}

/// Stepping back undoes stepping forward and the other way round, one place at
/// a time; at either end there is no further place.
pub proof fn stepping_back_undoes_stepping_forward(n: usize, len: nat)
    requires
        len <= usize::MAX,
    ensures
        n + 1 < len ==> backed(stepped(n, len) as usize) == n,
        0 < n < len ==> stepped(backed(n) as usize, len) == n,
        n > 0 ==> backed(n) == n - 1,
        n + 1 < len ==> stepped(n, len) == n + 1,
        backed(0) == 0,
        n + 1 == len ==> stepped(n, len) == n,
{
}

/// On the keys: moving down and up again is back where it was, one place in the
/// focused list and none in the other, and nothing else changes.
pub proof fn up_undoes_down(
    a: App,
    b: App,
    c: App,
    t1: u64,
    t2: u64,
    e1: Effect,
    e2: Effect,
)
    requires
        a.gpus@.len() <= usize::MAX,
        a.procs@.len() <= usize::MAX,
        applied(a, Action::NextItem, t1, &b, e1),
        applied(b, Action::PrevItem, t2, &c, e2),
        a.focus == Focus::Gpus ==> a.selected + 1 < a.gpus@.len(),
        a.focus == Focus::Procs ==> a.proc_sel + 1 < a.procs@.len(),
    ensures
        c == a,
        a.focus == Focus::Gpus ==> b == (App { selected: (a.selected + 1) as usize, ..a }),
        a.focus == Focus::Procs ==> b == (App { proc_sel: (a.proc_sel + 1) as usize, ..a }),
{
    stepping_back_undoes_stepping_forward(a.selected, a.gpus@.len());
    stepping_back_undoes_stepping_forward(a.proc_sel, a.procs@.len());
}

/// Moving up and down again is back where it was as well, and from the first
/// place there is no way up, from the last none down.
pub proof fn down_undoes_up(a: App, b: App, c: App, t1: u64, t2: u64, e1: Effect, e2: Effect)
    requires
        a.gpus@.len() <= usize::MAX,
        a.procs@.len() <= usize::MAX,
        applied(a, Action::PrevItem, t1, &b, e1),
        applied(b, Action::NextItem, t2, &c, e2),
        a.focus == Focus::Gpus ==> a.selected < a.gpus@.len(),
        a.focus == Focus::Procs ==> a.proc_sel < a.procs@.len(),
    ensures
        a.focus == Focus::Gpus && a.selected > 0 ==> c == a && b == (App {
            selected: (a.selected - 1) as usize,
            ..a
        }),
        a.focus == Focus::Procs && a.proc_sel > 0 ==> c == a && b == (App {
            proc_sel: (a.proc_sel - 1) as usize,
            ..a
        }),
        a.focus == Focus::Gpus && a.selected == 0 ==> b == a,
        a.focus == Focus::Procs && a.proc_sel == 0 ==> b == a,
{
    stepping_back_undoes_stepping_forward(a.selected, a.gpus@.len());
    stepping_back_undoes_stepping_forward(a.proc_sel, a.procs@.len());
}

/// The keys of one list reach it whatever has the focus: the scroll keys move
/// the process cursor as the movement keys do there, and the card keys the
/// selection.
pub proof fn direct_keys_move_as_the_focused_ones(
    a: App,
    cards: App,
    procs: App,
    t: u64,
    after: App,
    action: Action,
    e: Effect,
)
    requires
        applied(a, action, t, &after, e),
        cards == (App { focus: Focus::Gpus, ..a }),
        procs == (App { focus: Focus::Procs, ..a }),
    ensures
        action == Action::ProcScrollDown ==> applied(
            procs,
            Action::NextItem,
            t,
            &(App { focus: Focus::Procs, ..after }),
            e,
        ),
        action == Action::ProcScrollUp ==> applied(
            procs,
            Action::PrevItem,
            t,
            &(App { focus: Focus::Procs, ..after }),
            e,
        ),
        action == Action::NextGpu ==> applied(
            cards,
            Action::NextItem,
            t,
            &(App { focus: Focus::Gpus, ..after }),
            e,
        ),
        action == Action::PrevGpu ==> applied(
            cards,
            Action::PrevItem,
            t,
            &(App { focus: Focus::Gpus, ..after }),
            e,
        ),
        action == Action::ProcScrollDown || action == Action::ProcScrollUp ==> after == (App {
            proc_sel: after.proc_sel,
            ..a
        }),
        action == Action::NextGpu || action == Action::PrevGpu ==> after == (App {
            selected: after.selected,
            ..a
        }),
{
}

/// Away from the bounds `-` doubles the interval and `+` takes that back; at
/// the bounds the keys do nothing more.
pub proof fn the_interval_keys_undo_each_other(tick: u64)
    ensures
        MIN_TICK_MS <= tick && 2 * tick <= MAX_TICK_MS ==> faster(slower(tick)) == tick && slower(
            tick,
        ) == 2 * tick,
        2 * MIN_TICK_MS <= tick <= MAX_TICK_MS && tick % 2 == 0 ==> slower(faster(tick)) == tick
            && 2 * faster(tick) == tick,
        faster(MIN_TICK_MS) == MIN_TICK_MS,
        slower(MAX_TICK_MS) == MAX_TICK_MS,
        MIN_TICK_MS == 50 && MAX_TICK_MS == 10_000,
{
}

/// On the keys: `+` polls no slower, `-` no faster, both say that the interval
/// was chosen, and neither changes anything else.
pub proof fn the_interval_keys_change_the_interval_alone(
    before: App,
    after: App,
    action: Action,
    t: u64,
    e: Effect,
)
    requires
        applied(before, action, t, &after, e),
        MIN_TICK_MS < before.tick_ms < MAX_TICK_MS,
        action == Action::TickFaster || action == Action::TickSlower,
    ensures
        after == (App { tick_ms: after.tick_ms, tick_explicit: true, ..before }),
        action == Action::TickFaster ==> after.tick_ms < before.tick_ms,
        action == Action::TickSlower ==> after.tick_ms > before.tick_ms,
{
}

/// Pausing twice, and turning the order twice, is back where it was; either
/// really changes it once.
pub proof fn toggling_twice_changes_nothing(
    a: App,
    b: App,
    c: App,
    action: Action,
    t1: u64,
    t2: u64,
    e1: Effect,
    e2: Effect,
)
    requires
        applied(a, action, t1, &b, e1),
        applied(b, action, t2, &c, e2),
    ensures
        action == Action::TogglePause ==> c == a && b.paused != a.paused && b == (App {
            paused: b.paused,
            ..a
        }),
        action == Action::SortReverse ==> c.sort_desc == a.sort_desc && b.sort_desc != a.sort_desc
            && b.sort_by == a.sort_by,
{
}

/// A digit goes to the card of that number; pressed again there it folds the
/// card, and once more it unfolds it; the other cards' folds stay, and a number
/// without a card does nothing.
pub proof fn digits_select_then_fold(
    a: App,
    b: App,
    c: App,
    d: App,
    i: usize,
    t: u64,
    e1: Effect,
    e2: Effect,
    e3: Effect,
)
    requires
        applied(a, Action::Digit(i), t, &b, e1),
        applied(b, Action::Digit(i), t, &c, e2),
        applied(c, Action::Digit(i), t, &d, e3),
        !(a.focus == Focus::Gpus && a.selected == i),
    ensures
        i >= a.gpus@.len() ==> b == a,
        i < a.gpus@.len() ==> {
            &&& b.selected == i && b.focus == Focus::Gpus
            &&& b == (App { selected: b.selected, focus: b.focus, ..a })
            &&& c == (App { folded: c.folded, ..b })
            &&& forall|k: DeviceId|
                c.folded@.dom().contains(k) != a.folded@.dom().contains(k) <==> k == a.key_of(
                    i as int,
                )
            &&& d.folded@.dom() =~= a.folded@.dom()
        },
{
}

/// Asking to signal a process names the one under the cursor, and the stronger
/// signal only with its own key.
pub proof fn a_kill_names_the_row_under_the_cursor(
    before: App,
    action: Action,
    t: u64,
    after: &App,
    e: Effect,
)
    requires
        applied(before, action, t, after, e),
    ensures
        e matches Effect::Inspect { pid, force } ==> {
            &&& action == Action::KillTerm || action == Action::KillForce
            &&& force <==> action == Action::KillForce
            &&& before.proc_sel < before.procs@.len()
            &&& pid == before.procs@[before.proc_sel as int].pid
            &&& *after == before
        },
{
}

/// Opening the filter puts the present one up for editing, and gives the keys
/// to it; opening the help shows it; neither touches the table.
pub proof fn opening_changes_the_input_alone(
    before: App,
    action: Action,
    t: u64,
    after: App,
    e: Effect,
)
    requires
        applied(before, action, t, &after, e),
    ensures
        action == Action::FilterOpen ==> after.filter_input@ == before.filter@ && after.input_mode
            == InputMode::Filter && after.focus == Focus::Procs && after.filter == before.filter
            && after.procs == before.procs && after.proc_sel == before.proc_sel,
        action == Action::Help ==> after.show_help && after.procs == before.procs
            && after.selected == before.selected && after.paused == before.paused,
        action == Action::FocusProcs ==> after.focus == Focus::Procs && after.proc_sel
            == before.proc_sel && after.selected == before.selected,
{
}

/// Rebuilding the table shows the same rows anew with the cursor on the row it
/// was on, and changes nothing else.
pub proof fn rebuilding_keeps_the_cursors_row(before: App, after: &App, i: int)
    requires
        rebuilt(before, after),
        before.proc_sel < before.procs@.len(),
        0 <= i < after.procs@.len(),
        after.procs@[i].pid == before.procs@[before.proc_sel as int].pid,
        after.procs@[i].gpu_index == before.procs@[before.proc_sel as int].gpu_index,
        after.procs@.len() <= usize::MAX,
    ensures
        table_is_current(after),
        after.proc_sel <= i,
        after.procs@[after.proc_sel as int].pid == before.procs@[before.proc_sel as int].pid,
        after.procs@[after.proc_sel as int].gpu_index
            == before.procs@[before.proc_sel as int].gpu_index,
        after.all_procs == before.all_procs && after.filter == before.filter,
        after.sort_by == before.sort_by && after.sort_desc == before.sort_desc,
        after.gpus == before.gpus && after.selected == before.selected,
        after.focus == before.focus && after.input_mode == before.input_mode,
{
    let row = before.procs@[before.proc_sel as int];
    the_first_row_of_a_process_is_found(after.procs@, row.pid, row.gpu_index, 0, i);
}

} // verus!
