//! Signalling a process: the dialog, the guards, and what is said of each
//! outcome. The caller reads the process table and sends the signal; every
//! decision is made here.
use vstd::prelude::*;
use crate::app::{App, Focus, InputMode, PendingKill};
use crate::text::{a_text_is_found_where_it_stands, chars_of, contains_text, decimal, decimal_text, slice_of, string_of};

verus! {

/// A live process as the process table has it when the dialog opens.
#[derive(Clone, Copy, PartialEq, Eq, Structural, Debug)]
pub struct LiveProcess {
    pub start_time: u64,
    /// Start time in clock ticks since boot, where the system has it.
    pub start_ticks: Option<u64>,
}

/// The process that bears the pid when the signal is confirmed.
#[derive(Clone, Copy, PartialEq, Eq, Structural, Debug)]
pub struct Target {
    pub start_time: u64,
    pub has_exe: bool,
}

/// What became of a signal sent to a pinned process.
#[derive(Clone, Copy, PartialEq, Eq, Structural, Debug)]
pub enum Delivery {
    Sent,
    /// The pinned process had exited.
    Gone,
    Failed,
}

/// The first `n` characters of `s`.
pub open spec fn prefix(s: Seq<char>, n: int) -> Seq<char> {
    if s.len() > n {
        s.take(n)
    } else {
        s
    }
}

/// The name of the signal.
pub open spec fn signal_text(force: bool) -> Seq<char> {
    if force {
        "SIGKILL"@
    } else {
        "SIGTERM"@
    }
}

/// Why the kill dialog does not open: the pids are not this machine's, or the
/// process pane is not the one being looked at.
pub open spec fn dialog_refusal(app: &App) -> Option<Seq<char>> {
    if !app.backend_local {
        Some(
            "kill disabled: "@ + app.backend_name@
                + " pids don't name processes on this machine"@,
        )
    } else if app.focus != Focus::Procs {
        Some("kill: focus the process pane first (P)"@)
    } else {
        None
    }
}

/// Why a confirmed signal is not sent, before the process table is consulted.
pub open spec fn confirm_refusal(app: &App, pid: u32, own_pid: u32) -> Option<Seq<char>> {
    if !app.backend_local {
        Some("kill: "@ + app.backend_name@ + " pids are not signalable"@)
    } else if pid == 1 {
        Some("kill: refusing to signal pid 1 (init)"@)
    } else if pid == own_pid {
        Some("kill: refusing to signal gpur itself"@)
    } else {
        None
    }
}

/// Why a confirmed signal is not sent, going by the process that now bears the
/// pid.
pub open spec fn target_refusal(k: PendingKill, target: Option<Target>) -> Option<Seq<char>> {
    match target {
        None => Some("kill: pid "@ + decimal(k.pid as nat) + " no longer exists"@),
        Some(t) => if t.start_time != k.start_time {
            Some("kill: pid "@ + decimal(k.pid as nat) + " was reused by another process"@)
        } else if !t.has_exe {
            Some(
                "kill: pid "@ + decimal(k.pid as nat)
                    + " has no executable (kernel thread?) — refusing"@,
            )
        } else {
            None
        },
    }
}

/// Why a confirmed signal is not sent, going by the start time of the process
/// once it is pinned.
pub open spec fn pin_refusal(k: PendingKill, ticks: Option<u64>) -> Option<Seq<char>> {
    if ticks != k.start_ticks {
        Some("kill: pid "@ + decimal(k.pid as nat) + " was reused by another process"@)
    } else {
        None
    }
}

pub open spec fn sent_text(k: PendingKill) -> Seq<char> {
    "sent "@ + signal_text(k.force) + " to "@ + decimal(k.pid as nat) + " ("@ + k.command@ + ")"@
}

pub open spec fn failed_text(k: PendingKill) -> Seq<char> {
    signal_text(k.force) + " to "@ + decimal(k.pid as nat)
        + " failed (permission? try as root)"@
}

pub open spec fn pinned_report(k: PendingKill, d: Delivery) -> Seq<char> {
    match d {
        Delivery::Sent => sent_text(k),
        Delivery::Gone => "kill: pid "@ + decimal(k.pid as nat)
            + " exited before the signal was sent"@,
        Delivery::Failed => failed_text(k),
    }
}

/// What is said of a signal sent by pid; `None` where the platform does not
/// know the signal, which is never replaced by a stronger one.
pub open spec fn plain_report(k: PendingKill, sent: Option<bool>) -> Seq<char> {
    match sent {
        None => "kill: "@ + signal_text(k.force) + " is unsupported on this platform"@ + (
        if k.force {
            ""@
        } else {
            " — use X to send SIGKILL explicitly"@
        }),
        Some(true) => sent_text(k),
        Some(false) => failed_text(k),
    }
}

/// `after` is `before` with this status.
pub open spec fn says(before: App, after: &App, text: Seq<char>, now_ns: u64) -> bool {
    &&& *after == (App { status: after.status, ..before })
    &&& after.status matches Some((msg, at)) && msg@ == text && at == now_ns
}

fn signal_name(force: bool) -> (s: &'static str)
    ensures
        s@ == signal_text(force),
{
    if force {
        "SIGKILL"
    } else {
        "SIGTERM"
    }
}

fn about_pid(pid: u32, tail: &str) -> (s: String)
    ensures
        s@ == "kill: pid "@ + decimal(pid as nat) + tail@,
{
    let mut s = String::new();
    s.append("kill: pid ");
    s.append(decimal_text(pid as u64).as_str());
    s.append(tail);
    assert(s@ =~= "kill: pid "@ + decimal(pid as nat) + tail@);
    s
}

fn sent_message(k: &PendingKill) -> (s: String)
    ensures
        s@ == sent_text(*k),
{
    let mut s = String::new();
    s.append("sent ");
    s.append(signal_name(k.force));
    s.append(" to ");
    s.append(decimal_text(k.pid as u64).as_str());
    s.append(" (");
    s.append(k.command.as_str());
    s.append(")");
    assert(s@ =~= sent_text(*k));
    s
}

fn failed_message(k: &PendingKill) -> (s: String)
    ensures
        s@ == failed_text(*k),
{
    let mut s = String::new();
    s.append(signal_name(k.force));
    s.append(" to ");
    s.append(decimal_text(k.pid as u64).as_str());
    s.append(" failed (permission? try as root)");
    assert(s@ =~= failed_text(*k));
    s
}

/// The first forty characters of a command.
pub fn short_command(command: &str) -> (s: String)
    ensures
        s@ == prefix(command@, 40),
{
    let cs = chars_of(command);
    let n: usize = if cs.len() > 40 { 40 } else { cs.len() };
    let head = slice_of(&cs, 0, n);
    assert(head@ =~= prefix(cs@, 40));
    string_of(&head)
}

impl App {
    /// Whether the current backend's pids name processes on this machine.
    pub fn can_signal(&self) -> (b: bool)
        ensures
            b == self.backend_local,
    {
        self.backend_local
    }

    /// Asks to signal the process under the cursor. Answers the pid to look up
    /// before the dialog can open, or says why it stays shut.
    pub fn request_kill(&mut self, now_ns: u64) -> (r: Option<u32>)
        ensures
            kill_requested(*old(self), final(self), now_ns, r),
    {
        if !self.can_signal() {
            let mut msg = String::new();
            msg.append("kill disabled: ");
            msg.append(self.backend_name.as_str());
            msg.append(" pids don't name processes on this machine");
            assert(msg@ =~= "kill disabled: "@ + self.backend_name@
                + " pids don't name processes on this machine"@);
            self.set_status(msg, now_ns);
            return None;
        }
        match self.focus {
            Focus::Procs => {},
            Focus::Gpus => {
                let mut msg = String::new();
                msg.append("kill: focus the process pane first (P)");
                assert(msg@ =~= "kill: focus the process pane first (P)"@);
                self.set_status(msg, now_ns);
                return None;
            },
        }
        if self.proc_sel < self.procs.len() {
            Some(self.procs[self.proc_sel].pid)
        } else {
            None
        }
    }

    /// Opens the kill dialog on the row under the cursor, pinned to the process
    /// that was found live under its pid.
    pub fn open_kill(&mut self, force: bool, live: Option<LiveProcess>, now_ns: u64)
        requires
            old(self).proc_sel < old(self).procs@.len(),
        ensures
            kill_opened(*old(self), final(self), force, live, now_ns),
    {
        let row = &self.procs[self.proc_sel];
        let pid: u32 = row.pid;
        match live {
            None => {
                let msg = about_pid(pid, " is not a live local process");
                self.set_status(msg, now_ns);
            },
            Some(p) => {
                let command = short_command(row.command.as_str());
                self.pending_kill = Some(
                    PendingKill {
                        pid,
                        start_time: p.start_time,
                        force,
                        command,
                        start_ticks: p.start_ticks,
                    },
                );
                self.input_mode = InputMode::Confirm;
            },
        }
    }

    /// Takes the confirmation. Closes the dialog either way, and hands back
    /// the signal when nothing known so far forbids it.
    pub fn confirm_kill(&mut self, own_pid: u32, now_ns: u64) -> (r: Option<PendingKill>)
        ensures
            kill_confirmed(*old(self), final(self), own_pid, now_ns, r),
    {
        let pending = self.pending_kill.take();
        match pending {
            None => None,
            Some(k) => {
                self.input_mode = InputMode::Normal;
                if !self.can_signal() {
                    let mut msg = String::new();
                    msg.append("kill: ");
                    msg.append(self.backend_name.as_str());
                    msg.append(" pids are not signalable");
                    assert(msg@ =~= "kill: "@ + self.backend_name@ + " pids are not signalable"@);
                    self.set_status(msg, now_ns);
                    return None;
                }
                if k.pid == 1 {
                    let mut msg = String::new();
                    msg.append("kill: refusing to signal pid 1 (init)");
                    assert(msg@ =~= "kill: refusing to signal pid 1 (init)"@);
                    self.set_status(msg, now_ns);
                    return None;
                }
                if k.pid == own_pid {
                    let mut msg = String::new();
                    msg.append("kill: refusing to signal gpur itself");
                    assert(msg@ =~= "kill: refusing to signal gpur itself"@);
                    self.set_status(msg, now_ns);
                    return None;
                }
                Some(k)
            },
        }
    }

    /// Judges the process that now bears the pid; says whether to go on.
    pub fn judge_target(&mut self, k: &PendingKill, target: Option<Target>, now_ns: u64) -> (go: bool)
        ensures
            judged(*old(self), final(self), target_refusal(*k, target), now_ns, go),
    {
        match target {
            None => {
                let msg = about_pid(k.pid, " no longer exists");
                self.set_status(msg, now_ns);
                false
            },
            Some(t) => if t.start_time != k.start_time {
                let msg = about_pid(k.pid, " was reused by another process");
                self.set_status(msg, now_ns);
                false
            } else if !t.has_exe {
                let msg = about_pid(k.pid, " has no executable (kernel thread?) — refusing");
                self.set_status(msg, now_ns);
                false
            } else {
                true
            },
        }
    }

    /// Judges the start time of the pinned process; says whether to signal it.
    pub fn judge_pin(&mut self, k: &PendingKill, ticks: Option<u64>, now_ns: u64) -> (go: bool)
        ensures
            judged(*old(self), final(self), pin_refusal(*k, ticks), now_ns, go),
    {
        let same = match (ticks, k.start_ticks) {
            (Some(a), Some(b)) => a == b,
            (None, None) => true,
            _ => false,
        };
        if !same {
            let msg = about_pid(k.pid, " was reused by another process");
            self.set_status(msg, now_ns);
        }
        same
    }

    /// Says what became of a signal sent to the pinned process.
    pub fn report_pinned(&mut self, k: &PendingKill, delivery: Delivery, now_ns: u64)
        ensures
            says(*old(self), final(self), pinned_report(*k, delivery), now_ns),
    {
        let msg = match delivery {
            Delivery::Sent => sent_message(k),
            Delivery::Gone => about_pid(k.pid, " exited before the signal was sent"),
            Delivery::Failed => failed_message(k),
        };
        self.set_status(msg, now_ns);
    }

    /// Says what became of a signal sent by pid.
    pub fn report_plain(&mut self, k: &PendingKill, sent: Option<bool>, now_ns: u64)
        ensures
            says(*old(self), final(self), plain_report(*k, sent), now_ns),
    {
        let msg = match sent {
            None => {
                let mut s = String::new();
                s.append("kill: ");
                s.append(signal_name(k.force));
                s.append(" is unsupported on this platform");
                if !k.force {
                    s.append(" — use X to send SIGKILL explicitly");
                }
                proof {
                    reveal_strlit("");
                }
                assert(s@ =~= plain_report(*k, sent));
                s
            },
            Some(true) => sent_message(k),
            Some(false) => failed_message(k),
        };
        self.set_status(msg, now_ns);
    }
}

// ---------------------------------------------------------------- laws

/// A signal goes out only to a local process that is neither init nor the
/// monitor, still bears the pid it had when the dialog opened, and has an
/// executable.
pub proof fn no_signal_without_every_guard(
    app: &App,
    k: PendingKill,
    own_pid: u32,
    target: Option<Target>,
)
    ensures
        confirm_refusal(app, k.pid, own_pid) is None && target_refusal(k, target) is None <==> {
            &&& app.backend_local
            &&& k.pid != 1
            &&& k.pid != own_pid
            &&& target matches Some(t) && t.start_time == k.start_time && t.has_exe
        },
{
}

/// Where the process can be pinned, its start time to the tick is checked too.
pub proof fn a_pinned_signal_checks_the_tick(k: PendingKill, ticks: Option<u64>)
    ensures
        pin_refusal(k, ticks) is None <==> ticks == k.start_ticks,
{
}

/// A backend whose pids are not local opens no dialog and confirms none.
pub proof fn foreign_pids_are_never_signalled(app: &App, pid: u32, own_pid: u32)
    requires
        !app.backend_local,
    ensures
        dialog_refusal(app) is Some,
        confirm_refusal(app, pid, own_pid) is Some,
{
}

/// The dialog opens exactly where the pids are this machine's and the process
/// pane is being looked at.
pub proof fn the_dialog_opens_on_the_process_pane(app: &App)
    ensures
        dialog_refusal(app) is None <==> app.backend_local && app.focus == Focus::Procs,
{
}

/// The two signals go by different names, and what is said of one names it, the
/// process and, where it was sent, its command.
pub proof fn what_is_said_names_signal_and_process(k: PendingKill, d: Delivery)
    ensures
        signal_text(true) != signal_text(false),
        contains_text(sent_text(k), signal_text(k.force)),
        contains_text(sent_text(k), decimal(k.pid as nat)),
        contains_text(sent_text(k), k.command@),
        contains_text(failed_text(k), signal_text(k.force)),
        contains_text(failed_text(k), decimal(k.pid as nat)),
        contains_text(pinned_report(k, d), decimal(k.pid as nat)),
        contains_text(plain_report(k, None), signal_text(k.force)),
        d is Sent ==> pinned_report(k, d) == plain_report(k, Some(true)),
        d is Failed ==> pinned_report(k, d) == plain_report(k, Some(false)),
{
    reveal_strlit("SIGKILL");
    reveal_strlit("SIGTERM");
    assert("SIGKILL"@[3] == 'K' && "SIGTERM"@[3] == 'T');
    let sig = signal_text(k.force);
    let pid = decimal(k.pid as nat);
    let sent = sent_text(k);
    let none = Seq::<char>::empty();
    let rest = " ("@ + k.command@ + ")"@;
    a_text_is_found_where_it_stands("sent "@, sig, " to "@ + pid + rest);
    assert(sent =~= "sent "@ + sig + (" to "@ + pid + rest));
    a_text_is_found_where_it_stands("sent "@ + sig + " to "@, pid, rest);
    assert(sent =~= "sent "@ + sig + " to "@ + pid + rest);
    a_text_is_found_where_it_stands("sent "@ + sig + " to "@ + pid + " ("@, k.command@, ")"@);
    assert(sent =~= "sent "@ + sig + " to "@ + pid + " ("@ + k.command@ + ")"@);
    let failed = failed_text(k);
    let tail = " failed (permission? try as root)"@;
    a_text_is_found_where_it_stands(none, sig, " to "@ + pid + tail);
    assert(failed =~= none + sig + (" to "@ + pid + tail));
    a_text_is_found_where_it_stands(sig + " to "@, pid, tail);
    assert(failed =~= sig + " to "@ + pid + tail);
    let gone = " exited before the signal was sent"@;
    a_text_is_found_where_it_stands("kill: pid "@, pid, gone);
    let end = if k.force {
        ""@
    } else {
        " — use X to send SIGKILL explicitly"@
    };
    a_text_is_found_where_it_stands("kill: "@, sig, " is unsupported on this platform"@ + end);
    assert(plain_report(k, None) =~= "kill: "@ + sig + (" is unsupported on this platform"@ + end));
}

/// A refusal names the process that was asked about.
pub proof fn a_refusal_names_the_process(
    k: PendingKill,
    target: Option<Target>,
    ticks: Option<u64>,
)
    ensures
        target_refusal(k, target) matches Some(t) ==> contains_text(t, decimal(k.pid as nat)),
        pin_refusal(k, ticks) matches Some(t) ==> contains_text(t, decimal(k.pid as nat)),
{
    let pid = decimal(k.pid as nat);
    a_text_is_found_where_it_stands("kill: pid "@, pid, " no longer exists"@);
    a_text_is_found_where_it_stands("kill: pid "@, pid, " was reused by another process"@);
    a_text_is_found_where_it_stands(
        "kill: pid "@,
        pid,
        " has no executable (kernel thread?) — refusing"@,
    );
}

/// A command is cut at the end alone, and only where it is too long.
pub proof fn a_long_command_is_cut_at_the_end(s: Seq<char>, n: int)
    requires
        0 <= n,
    ensures
        prefix(s, n).len() <= n,
        s.len() <= n ==> prefix(s, n) == s,
        s.len() > n ==> prefix(s, n).len() == n,
        forall|i: int| 0 <= i < prefix(s, n).len() ==> prefix(s, n)[i] == s[i],
{
}

/// Saying something changes the status line and nothing else.
pub proof fn saying_changes_nothing_else(before: App, after: &App, text: Seq<char>, now_ns: u64)
    requires
        says(before, after, text, now_ns),
    ensures
        after.status matches Some((msg, at)) && msg@ == text && at == now_ns,
        after.pending_kill == before.pending_kill && after.procs == before.procs,
        after.all_procs == before.all_procs && after.proc_sel == before.proc_sel,
        after.gpus == before.gpus && after.selected == before.selected,
        after.input_mode == before.input_mode && after.filter == before.filter,
        after.paused == before.paused && after.tick_ms == before.tick_ms,
        after.history == before.history && after.session == before.session,
{
}

/// What asking for the dialog does: a refusal is said, else the process under
/// the cursor is looked up.
pub open spec fn kill_requested(before: App, after: &App, now_ns: u64, r: Option<u32>) -> bool {
    match dialog_refusal(&before) {
        Some(text) => r is None && says(before, after, text, now_ns),
        None => *after == before && r == (if before.proc_sel < before.procs@.len() {
            Some(before.procs@[before.proc_sel as int].pid)
        } else {
            None
        }),
    }
}

/// What opening the dialog does: it is about the row under the cursor, pinned to
/// the process that was found alive; where none was, that is said.
pub open spec fn kill_opened(
    before: App,
    after: &App,
    force: bool,
    live: Option<LiveProcess>,
    now_ns: u64,
) -> bool {
    let row = before.procs@[before.proc_sel as int];
    match live {
        None => says(
            before,
            after,
            "kill: pid "@ + decimal(row.pid as nat) + " is not a live local process"@,
            now_ns,
        ),
        Some(p) => {
            &&& *after == (App {
                pending_kill: after.pending_kill,
                input_mode: InputMode::Confirm,
                ..before
            })
            &&& after.pending_kill matches Some(k) && {
                &&& k.pid == row.pid
                &&& k.start_time == p.start_time
                &&& k.force == force
                &&& k.command@ == prefix(row.command@, 40)
                &&& k.start_ticks == p.start_ticks
            }
        },
    }
}

/// What confirming does: the dialog closes, and the kill goes on unless it is
/// refused.
pub open spec fn kill_confirmed(
    before: App,
    after: &App,
    own_pid: u32,
    now_ns: u64,
    r: Option<PendingKill>,
) -> bool {
    match before.pending_kill {
        None => r is None && *after == before,
        Some(k) => {
            let closed = App { pending_kill: None, input_mode: InputMode::Normal, ..before };
            match confirm_refusal(&before, k.pid, own_pid) {
                Some(text) => r is None && says(closed, after, text, now_ns),
                None => r == Some(k) && *after == closed,
            }
        },
    }
}

/// What a check does: a refusal is said and stops the kill.
pub open spec fn judged(
    before: App,
    after: &App,
    refusal: Option<Seq<char>>,
    now_ns: u64,
    go: bool,
) -> bool {
    match refusal {
        Some(text) => !go && says(before, after, text, now_ns),
        None => go && *after == before,
    }
}

/// The process asked about is the one under the cursor, and only where the
/// dialog may open; asking changes nothing but, on a refusal, what is said.
pub proof fn the_process_under_the_cursor_is_asked_about(
    before: App,
    after: &App,
    now_ns: u64,
    r: Option<u32>,
)
    requires
        kill_requested(before, after, now_ns, r),
    ensures
        r matches Some(pid) ==> before.proc_sel < before.procs@.len()
            && before.procs@[before.proc_sel as int].pid == pid && *after == before,
        r is Some ==> dialog_refusal(&before) is None,
        dialog_refusal(&before) is None && before.proc_sel < before.procs@.len() ==> r is Some,
        dialog_refusal(&before) matches Some(text) ==> (after.status matches Some((msg, at))
            && msg@ == text && at == now_ns),
        after.pending_kill == before.pending_kill && after.input_mode == before.input_mode,
        after.procs == before.procs && after.proc_sel == before.proc_sel,
{
}

/// The dialog that opens is about the row under the cursor, with the signal that
/// was asked for, and pins the very process that was found; where none was
/// found, none opens and the process is named.
pub proof fn the_dialog_pins_the_process_it_was_opened_on(
    before: App,
    after: &App,
    force: bool,
    live: Option<LiveProcess>,
    now_ns: u64,
)
    requires
        kill_opened(before, after, force, live, now_ns),
        before.proc_sel < before.procs@.len(),
    ensures
        live matches Some(p) ==> after.input_mode is Confirm && (after.pending_kill matches Some(k)
            && k.pid == before.procs@[before.proc_sel as int].pid && k.force == force
            && k.start_time == p.start_time && k.start_ticks == p.start_ticks
            && k.command@.len() <= 40 && k.command@.is_prefix_of(
            before.procs@[before.proc_sel as int].command@,
        )),
        live is None ==> after.input_mode == before.input_mode && after.pending_kill
            == before.pending_kill && (after.status matches Some((msg, at)) && at == now_ns
            && contains_text(msg@, decimal(before.procs@[before.proc_sel as int].pid as nat))),
        after.procs == before.procs && after.proc_sel == before.proc_sel,
{
    let row = before.procs@[before.proc_sel as int];
    a_text_is_found_where_it_stands(
        "kill: pid "@,
        decimal(row.pid as nat),
        " is not a live local process"@,
    );
}

/// Confirming closes the dialog in any case and lets through the kill that was
/// pending, no other, and only where nothing refuses it.
pub proof fn confirming_lets_through_what_was_pending(
    before: App,
    after: &App,
    own_pid: u32,
    now_ns: u64,
    r: Option<PendingKill>,
)
    requires
        kill_confirmed(before, after, own_pid, now_ns, r),
    ensures
        r is Some ==> r == before.pending_kill,
        r matches Some(k) ==> confirm_refusal(&before, k.pid, own_pid) is None,
        before.pending_kill matches Some(k) ==> (confirm_refusal(&before, k.pid, own_pid) is None
            ==> r is Some),
        before.pending_kill is Some ==> after.pending_kill is None && after.input_mode is Normal,
        before.pending_kill is None ==> *after == before,
        after.procs == before.procs && after.proc_sel == before.proc_sel,
{
}

/// A check that refuses stops the kill and says why; one that does not changes
/// nothing.
pub proof fn a_refusal_stops_the_kill(
    before: App,
    after: &App,
    refusal: Option<Seq<char>>,
    now_ns: u64,
    go: bool,
)
    requires
        judged(before, after, refusal, now_ns, go),
    ensures
        go <==> refusal is None,
        go ==> *after == before,
        refusal matches Some(text) ==> (after.status matches Some((msg, at)) && msg@ == text && at
            == now_ns),
{
}

} // verus!
