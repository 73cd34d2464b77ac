use crossterm::event::{KeyCode, KeyEvent, KeyEventKind, KeyEventState, KeyModifiers};
use gpur::app::history::Sample;
use gpur::app::process::ProcRow;
use gpur::app::{App, AppOptions, Focus, GraphStyle, InputMode, PendingKill, Rect, SortBy, UiState};
use gpur::backend::{BackendSource, GpuSnapshot, ProcKind};
use gpur::events::{
    poll_due, priming_gap, startup_sticky, startup_tick, Key, KeyStep, Mouse, MouseKind,
};
use gpur::keys::{binds, default_keymap, resolve, Action};

fn press(code: KeyCode, modifiers: KeyModifiers) -> KeyEvent {
    KeyEvent {
        code,
        modifiers,
        kind: KeyEventKind::Press,
        state: KeyEventState::NONE,
    }
}

fn key(c: char) -> KeyEvent {
    press(KeyCode::Char(c), KeyModifiers::NONE)
}

#[test]
fn every_chord_of_the_table_resolves_to_its_action() {
    let mut km = default_keymap();
    for b in &binds() {
        let ev = match b.chord {
            "<Esc>" => press(KeyCode::Esc, KeyModifiers::NONE),
            "<C-c>" => press(KeyCode::Char('c'), KeyModifiers::CONTROL),
            "<Space>" => key(' '),
            "<Down>" => press(KeyCode::Down, KeyModifiers::NONE),
            "<Up>" => press(KeyCode::Up, KeyModifiers::NONE),
            "<PageDown>" => press(KeyCode::PageDown, KeyModifiers::NONE),
            "<PageUp>" => press(KeyCode::PageUp, KeyModifiers::NONE),
            one => key(one.chars().next().unwrap()),
        };
        assert_eq!(resolve(&mut km, ev), Some(b.action), "{:?}", b.chord);
    }
    for d in 0..10 {
        let c = char::from_digit(d, 10).unwrap();
        assert_eq!(resolve(&mut km, key(c)), Some(Action::Digit(d as usize)));
    }
}

#[test]
fn p_pauses_and_capital_p_goes_to_the_processes() {
    let mut km = default_keymap();
    let mut a = app();
    for (ev, paused) in [(key('p'), true), (key('p'), false), (key(' '), true)] {
        let action = resolve(&mut km, ev).unwrap();
        assert_eq!(action, Action::TogglePause);
        a.apply(action, 0);
        assert_eq!(a.paused, paused);
    }
    for ev in [key('P'), press(KeyCode::Char('P'), KeyModifiers::SHIFT)] {
        assert_eq!(resolve(&mut km, ev), Some(Action::FocusProcs));
    }
    a.apply(Action::FocusProcs, 0);
    assert_eq!(a.focus, Focus::Procs);
}

#[test]
fn unbound_keys_and_releases_do_nothing() {
    let mut km = default_keymap();
    assert_eq!(resolve(&mut km, key('z')), None);
    assert_eq!(resolve(&mut km, press(KeyCode::F(5), KeyModifiers::NONE)), None);
    assert_eq!(
        resolve(&mut km, press(KeyCode::Char('q'), KeyModifiers::CONTROL)),
        None
    );
    assert_eq!(resolve(&mut km, key('q')), Some(Action::Quit));
}

fn row(pid: u32) -> ProcRow {
    ProcRow {
        pid,
        gpu_index: 0,
        kind: ProcKind::Compute,
        gpu_util_pct: None,
        gpu_mem_bytes: None,
        user: "me".to_string(),
        cpu_pct: None,
        host_mem_bytes: None,
        command: format!("job-{pid}"),
        container: None,
    }
}

fn app() -> App {
    let mut app = App::new(
        AppOptions {
            tick_ms: 1000,
            tick_explicit: false,
            history_len: 60,
            no_splash: false,
            graph_style: GraphStyle::Ascii,
            source: BackendSource::Live,
            backend_name: "test".to_string(),
            backend_local: true,
        },
        0,
    );
    let none = Sample {
        util: None,
        mem: None,
        power: None,
        temp: None,
    };
    let gpus = vec![GpuSnapshot::default(), GpuSnapshot::default()];
    app.poll(Ok((gpus, vec![none; 2])));
    app.all_procs = (1..=5).map(row).collect();
    app.sort_by = SortBy::Pid;
    app.sort_desc = false;
    app.rebuild_proc_view();
    app
}

const LATER: u64 = 60_000_000_000;

#[test]
fn the_first_key_only_ends_the_splash() {
    let mut a = app();
    assert_eq!(a.on_key(Key::Char('q'), false, 1), KeyStep::Redraw);
    assert!(a.splash_skipped);
    assert_eq!(a.on_key(Key::Char('q'), false, 1), KeyStep::Resolve);

    let mut b = app();
    assert_eq!(b.on_key(Key::Char('q'), false, LATER), KeyStep::Resolve);
    assert!(!b.splash_skipped);
}

#[test]
fn the_filter_takes_text_and_leaves_control_chords_out() {
    let mut a = app();
    a.input_mode = InputMode::Filter;
    for c in "Job-3 x".chars() {
        assert_eq!(a.on_key(Key::Char(c), false, LATER), KeyStep::Handled);
    }
    assert_eq!(a.filter_input, "Job-3 x");
    a.on_key(Key::Char('k'), true, LATER);
    assert_eq!(a.filter_input, "Job-3 x");
    a.on_key(Key::Char('w'), true, LATER);
    assert_eq!(a.filter_input, "Job-3 ");
    a.on_key(Key::Backspace, false, LATER);
    a.on_key(Key::Backspace, false, LATER);
    assert_eq!(a.filter_input, "Job-");
    a.on_key(Key::Char('3'), false, LATER);
    a.on_key(Key::Enter, false, LATER);
    assert_eq!(a.filter, "Job-3");
    assert!(a.input_mode == InputMode::Normal);
    assert_eq!(a.procs.iter().map(|p| p.pid).collect::<Vec<_>>(), [3]);

    a.input_mode = InputMode::Filter;
    a.on_key(Key::Char('u'), true, LATER);
    assert_eq!(a.filter_input, "");
    assert_eq!(a.on_key(Key::Char('c'), true, LATER), KeyStep::Quit);
    a.on_key(Key::Esc, false, LATER);
    assert_eq!(a.filter, "Job-3", "cancelling keeps the filter");
}

#[test]
fn only_y_confirms_a_kill() {
    let mut a = app();
    let pending = || PendingKill {
        pid: 3,
        start_time: 0,
        force: false,
        command: String::new(),
        start_ticks: None,
    };
    for (k, step) in [
        (Key::Char('y'), KeyStep::Confirm),
        (Key::Char('Y'), KeyStep::Confirm),
        (Key::Char('n'), KeyStep::Handled),
        (Key::Enter, KeyStep::Handled),
        (Key::Esc, KeyStep::Handled),
    ] {
        a.pending_kill = Some(pending());
        a.input_mode = InputMode::Confirm;
        assert_eq!(a.on_key(k, false, LATER), step, "{k:?}");
        assert_eq!(a.pending_kill.is_some(), step == KeyStep::Confirm);
    }
}

#[test]
fn any_key_closes_the_help() {
    let mut a = app();
    a.show_help = true;
    assert_eq!(a.on_key(Key::Char('q'), false, LATER), KeyStep::Redraw);
    assert!(!a.show_help);
}

fn at(kind: MouseKind, col: u16, row: u16) -> Mouse {
    Mouse { kind, col, row }
}

#[test]
fn the_mouse_goes_to_the_pane_under_it() {
    let mut a = app();
    a.gpus_rect = Rect { x: 0, y: 1, width: 40, height: 10 };
    a.proc_rect = Rect { x: 0, y: 11, width: 40, height: 7 };
    a.card_rects = vec![
        (Rect { x: 0, y: 1, width: 40, height: 5 }, 0),
        (Rect { x: 0, y: 6, width: 40, height: 5 }, 1),
    ];
    a.proc_scroll = 1;
    a.proc_visible = 4;

    assert!(!a.on_mouse(at(MouseKind::LeftDown, 5, 13), LATER));
    assert_eq!((a.focus, a.proc_sel), (Focus::Procs, 1));
    a.on_mouse(at(MouseKind::LeftDown, 5, 15), LATER);
    assert_eq!(a.proc_sel, 3);
    a.on_mouse(at(MouseKind::LeftDown, 5, 12), LATER);
    assert_eq!(a.proc_sel, 3, "the header is no row");
    a.on_mouse(at(MouseKind::LeftDown, 5, 17), LATER);
    assert_eq!(a.proc_sel, 3, "the border is no row");
    a.on_mouse(at(MouseKind::ScrollDown, 5, 13), LATER);
    assert_eq!(a.proc_sel, 4);
    a.on_mouse(at(MouseKind::ScrollDown, 5, 13), LATER);
    assert_eq!(a.proc_sel, 4, "the last row is the last");

    a.on_mouse(at(MouseKind::LeftDown, 5, 7), LATER);
    assert_eq!((a.focus, a.selected), (Focus::Gpus, 1));
    a.on_mouse(at(MouseKind::ScrollUp, 5, 7), LATER);
    assert_eq!(a.selected, 0);
    a.on_mouse(at(MouseKind::LeftDown, 50, 7), LATER);
    assert_eq!(a.selected, 0, "outside of both panes");

    a.show_help = true;
    assert!(a.on_mouse(at(MouseKind::LeftDown, 5, 7), LATER));
    assert_eq!(a.selected, 0, "an overlay owns the screen");
}

#[test]
fn moving_stops_at_the_ends() {
    let mut a = app();
    a.apply(Action::NextGpu, 0);
    a.apply(Action::NextGpu, 0);
    assert_eq!(a.selected, 1);
    a.apply(Action::PrevItem, 0);
    a.apply(Action::PrevItem, 0);
    assert_eq!(a.selected, 0);
    a.apply(Action::FocusProcs, 0);
    for _ in 0..9 {
        a.apply(Action::NextItem, 0);
    }
    assert_eq!(a.proc_sel, 4);
    a.apply(Action::SortReverse, 0);
    assert_eq!((a.procs[0].pid, a.proc_sel), (5, 0), "the cursor stays on its row");
    for by in [SortBy::GpuMem, SortBy::GpuUtil, SortBy::Cpu, SortBy::HostMem, SortBy::Pid] {
        a.apply(Action::SortCycle, 0);
        assert_eq!(a.sort_by, by);
    }
}

#[test]
fn the_starting_interval_prefers_the_command_line() {
    let state = |explicit| {
        Some(UiState {
            folded_devices: Vec::new(),
            sort_by: SortBy::Pid,
            sort_desc: false,
            tick_ms: 300,
            tick_ms_explicit: explicit,
        })
    };
    assert_eq!(startup_tick(Some(700), &state(Some(true)), 1000), 700);
    assert_eq!(startup_tick(None, &state(Some(true)), 1000), 300);
    assert_eq!(startup_tick(None, &state(None), 1000), 300);
    assert_eq!(startup_tick(None, &state(Some(false)), 1000), 1000);
    assert_eq!(startup_tick(None, &None, 1), 50);
    assert!(startup_sticky(None, &state(Some(true))));
    assert!(!startup_sticky(None, &state(None)));
    assert!(!startup_sticky(Some(700), &state(Some(true))));
    assert_eq!((priming_gap(5), priming_gap(500), priming_gap(9000)), (100, 500, 1000));
    assert!(poll_due(5, 5_000_000) && !poll_due(5, 4_999_999));
}
