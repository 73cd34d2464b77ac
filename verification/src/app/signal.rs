//! A confirmed signal on its way: the caller does what a stage asks for and
//! reports back, and each report leads to the next stage. A signal goes out in
//! the two sending stages alone.
use vstd::prelude::*;
use crate::app::kill::{confirm_refusal, pin_refusal, pinned_report, plain_report, says, target_refusal, Delivery, Target};
use crate::app::{App, InputMode, PendingKill};

verus! {

/// What a confirmed signal waits for.
#[derive(Debug)]
pub enum Stage {
    /// Look up the process that now bears the pid.
    Inspect(PendingKill),
    /// Take hold of that process, where the system can.
    Pin(PendingKill),
    /// Signal the process that is held.
    SendPinned(PendingKill),
    /// Signal by pid.
    SendPlain(PendingKill),
    Done,
}

/// What the caller found, or what became of the signal.
#[derive(Debug)]
pub enum Report {
    Found(Option<Target>),
    /// The process is held, and started at this tick.
    Held(Option<u64>),
    NotHeld,
    Delivered(Delivery),
    /// None where the platform does not know the signal.
    Answered(Option<bool>),
}

/// The stage that a report leads to. One that the stage did not ask for ends it.
pub open spec fn stage_after(stage: Stage, report: Report) -> Stage {
    match (stage, report) {
        (Stage::Inspect(k), Report::Found(t)) => if target_refusal(k, t) is None {
            Stage::Pin(k)
        } else {
            Stage::Done
        },
        (Stage::Pin(k), Report::Held(ticks)) => if pin_refusal(k, ticks) is None {
            Stage::SendPinned(k)
        } else {
            Stage::Done
        },
        (Stage::Pin(k), Report::NotHeld) => Stage::SendPlain(k),
        _ => Stage::Done,
    }
}

/// What is said of a report, if anything.
pub open spec fn message_of(stage: Stage, report: Report) -> Option<Seq<char>> {
    match (stage, report) {
        (Stage::Inspect(k), Report::Found(t)) => target_refusal(k, t),
        (Stage::Pin(k), Report::Held(ticks)) => pin_refusal(k, ticks),
        (Stage::SendPinned(k), Report::Delivered(d)) => Some(pinned_report(k, d)),
        (Stage::SendPlain(k), Report::Answered(sent)) => Some(plain_report(k, sent)),
        _ => None,
    }
}

/// The first stage of what awaits its confirmation.
pub open spec fn first_stage(app: &App, own_pid: u32) -> Stage {
    match app.pending_kill {
        Some(k) => if confirm_refusal(app, k.pid, own_pid) is None {
            Stage::Inspect(k)
        } else {
            Stage::Done
        },
        None => Stage::Done,
    }
}

/// The stage after these reports.
pub open spec fn stage_of(app: &App, own_pid: u32, reports: Seq<Report>) -> Stage
    decreases reports.len(),
{
    if reports.len() == 0 {
        first_stage(app, own_pid)
    } else {
        stage_after(stage_of(app, own_pid, reports.drop_last()), reports.last())
    }
}

impl App {
    /// Takes the confirmation: closes the dialog, and starts on the signal
    /// where nothing known so far forbids it.
    pub fn begin_kill(&mut self, own_pid: u32, now_ns: u64) -> (s: Stage)
        ensures
            s == first_stage(old(self), own_pid),
            kill_begun(*old(self), final(self), own_pid, now_ns),
    {
        match self.confirm_kill(own_pid, now_ns) {
            Some(k) => Stage::Inspect(k),
            None => Stage::Done,
        }
    }

    /// Takes a report, and says what there is to say of it.
    pub fn kill_step(&mut self, stage: Stage, report: Report, now_ns: u64) -> (s: Stage)
        ensures
            s == stage_after(stage, report),
            reported(*old(self), final(self), message_of(stage, report), now_ns),
    {
        match (stage, report) {
            (Stage::Inspect(k), Report::Found(t)) => if self.judge_target(&k, t, now_ns) {
                Stage::Pin(k)
            } else {
                Stage::Done
            },
            (Stage::Pin(k), Report::Held(ticks)) => if self.judge_pin(&k, ticks, now_ns) {
                Stage::SendPinned(k)
            } else {
                Stage::Done
            },
            (Stage::Pin(k), Report::NotHeld) => Stage::SendPlain(k),
            (Stage::SendPinned(k), Report::Delivered(d)) => {
                self.report_pinned(&k, d, now_ns);
                Stage::Done
            },
            (Stage::SendPlain(k), Report::Answered(sent)) => {
                self.report_plain(&k, sent, now_ns);
                Stage::Done
            },
            _ => Stage::Done,
        }
    }
}

// ---------------------------------------------------------------- laws

/// Whatever is reported, a signal goes out only to what the dialog asked about,
/// on a local backend, to neither init nor the monitor, once the process was
/// found with the start time and an executable; and, where it could be held,
/// with the same start tick.
pub proof fn a_signal_passes_every_guard(app: &App, own_pid: u32, reports: Seq<Report>)
    ensures
        match stage_of(app, own_pid, reports) {
            Stage::SendPinned(k) => {
                &&& may_signal(app, own_pid, k, reports)
                &&& reports[1] == Report::Held(k.start_ticks)
            },
            Stage::SendPlain(k) => {
                &&& may_signal(app, own_pid, k, reports)
                &&& reports[1] is NotHeld
            },
            Stage::Pin(k) => {
                &&& reports.len() == 1
                &&& app.pending_kill == Some(k)
                &&& confirm_refusal(app, k.pid, own_pid) is None
                &&& reports[0] matches Report::Found(t)
                &&& target_refusal(k, t) is None
            },
            Stage::Inspect(k) => {
                &&& reports.len() == 0
                &&& app.pending_kill == Some(k)
                &&& confirm_refusal(app, k.pid, own_pid) is None
            },
            Stage::Done => true,
        },
    decreases reports.len(),
{
    if reports.len() > 0 {
        a_signal_passes_every_guard(app, own_pid, reports.drop_last());
    }
}

/// Every guard lets the signal `k` pass after these reports.
pub open spec fn may_signal(app: &App, own_pid: u32, k: PendingKill, reports: Seq<Report>) -> bool {
    &&& reports.len() == 2
    &&& app.pending_kill == Some(k)
    &&& app.backend_local
    &&& k.pid != 1
    &&& k.pid != own_pid
    &&& reports[0] matches Report::Found(Some(t))
    &&& t.start_time == k.start_time
    &&& t.has_exe
}

/// What starting a kill does to the state: the dialog closes, and a refusal is
/// said.
pub open spec fn kill_begun(before: App, after: &App, own_pid: u32, now_ns: u64) -> bool {
    match before.pending_kill {
        None => *after == before,
        Some(k) => {
            let closed = App { pending_kill: None, input_mode: InputMode::Normal, ..before };
            match confirm_refusal(&before, k.pid, own_pid) {
                Some(text) => says(closed, after, text, now_ns),
                None => *after == closed,
            }
        },
    }
}

/// What a step of a kill does to the state: its message, where it has one, is
/// said.
pub open spec fn reported(before: App, after: &App, message: Option<Seq<char>>, now_ns: u64) -> bool {
    match message {
        Some(text) => says(before, after, text, now_ns),
        None => *after == before,
    }
}

/// Starting a kill closes the dialog whether or not it is refused, and what is
/// said is why; without a dialog nothing happens.
pub proof fn a_kill_closes_its_dialog(before: App, after: &App, own_pid: u32, now_ns: u64)
    requires
        kill_begun(before, after, own_pid, now_ns),
    ensures
        before.pending_kill is Some ==> after.pending_kill is None && after.input_mode is Normal,
        before.pending_kill is None ==> *after == before,
        before.pending_kill matches Some(k) ==> (confirm_refusal(&before, k.pid, own_pid) matches Some(
            text,
        ) ==> (after.status matches Some((msg, at)) && msg@ == text && at == now_ns)),
        before.pending_kill matches Some(k) ==> (confirm_refusal(&before, k.pid, own_pid) is None
            ==> after.status == before.status),
        after.procs == before.procs && after.proc_sel == before.proc_sel,
{
}

/// A step changes what is said and nothing else, and leaves that alone where it
/// has nothing to say.
pub proof fn a_step_only_reports(before: App, after: &App, message: Option<Seq<char>>, now_ns: u64)
    requires
        reported(before, after, message, now_ns),
    ensures
        message is None ==> *after == before,
        message matches Some(text) ==> (after.status matches Some((msg, at)) && msg@ == text && at
            == now_ns),
        after.pending_kill == before.pending_kill && after.input_mode == before.input_mode,
        after.procs == before.procs && after.gpus == before.gpus,
{
}

} // verus!
