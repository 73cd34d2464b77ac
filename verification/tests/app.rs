use std::cmp::Ordering;
use gpur::app::control::Effect;
use gpur::app::device::{device_keys, DeviceKey};
use gpur::app::evict::MAX_ABSENT_DEVICES;
use gpur::app::history::{Sample, SessionStats};
use gpur::app::kill::{Delivery, LiveProcess, Target};
use gpur::app::poll::PollStep;
use gpur::app::process::{
    cached_container, container_of_cgroup, parse_start_ticks, ContainerCache, ProcRow,
};
use gpur::app::refresh::{cpu_sample_due, cpu_sample_due_after, HostProcess};
use gpur::app::signal::{Report, Stage};
use gpur::app::{
    clamp_tick_ms, App, AppOptions, Focus, GraphStyle, InputMode, PendingKill, SortBy, UiState,
    MAX_TICK_MS, MIN_TICK_MS,
};
use gpur::backend::{BackendSource, Detection, GpuProcess, GpuSnapshot, ProcKind};
use gpur::keys::{binds, Action};
use gpur::order::{Real, Real32};

fn reading(x: f64) -> Real {
    Real { bits: x.to_bits() }
}

fn float(x: Real) -> f64 {
    f64::from_bits(x.bits)
}

fn app_from(source: BackendSource, name: &str, local: bool) -> App {
    App::new(
        AppOptions {
            tick_ms: 1000,
            tick_explicit: false,
            history_len: 60,
            no_splash: true,
            graph_style: GraphStyle::Ascii,
            source,
            backend_name: name.to_string(),
            backend_local: local,
        },
        0,
    )
}

fn local_app() -> App {
    app_from(BackendSource::Live, "test", true)
}

/// The graph sample of a snapshot.
fn sample_of(g: &GpuSnapshot) -> Sample {
    let round = |v: Option<Real>| v.map(|v| float(v).round() as u64);
    Sample {
        util: round(g.utilization_pct),
        mem: g
            .mem_primary()
            .fill()
            .map(|(used, total)| (used as f64 / total as f64 * 100.0).round() as u64),
        power: round(g.power_w),
        temp: round(g.temperature_c),
    }
}

/// Takes one poll's cards in: their samples, then their session figures.
fn take(app: &mut App, gpus: Vec<GpuSnapshot>) {
    let samples: Vec<Sample> = gpus.iter().map(sample_of).collect();
    let n = gpus.len();
    assert!(matches!(app.poll(Ok((gpus, samples))), PollStep::Taken));
    for i in 0..n {
        let was = app.session_at(i).copied().unwrap_or_default();
        let util = float(was.util.sum) + app.gpus[i].utilization_pct.map_or(0.0, float);
        let power = float(was.power.sum) + app.gpus[i].power_w.map_or(0.0, float);
        app.add_session(i, reading(util), reading(power));
    }
}

/// A poll that finds these devices, each with its utilization.
fn poll(app: &mut App, devices: &[(Option<&str>, f64)]) {
    let gpus = devices
        .iter()
        .map(|(id, util)| GpuSnapshot {
            name: id.unwrap_or("anon").to_string(),
            device_id: id.map(str::to_string),
            utilization_pct: Some(reading(*util)),
            ..Default::default()
        })
        .collect();
    take(app, gpus);
}

fn util_history(app: &App, idx: usize) -> Vec<Option<u64>> {
    app.history_at(idx).expect("history for card").util.clone()
}

fn peak_util(app: &App, idx: usize) -> Option<f64> {
    app.session_at(idx).unwrap().max_util_pct.map(float)
}

fn arm(app: &mut App, pid: u32, start_time: u64) {
    app.pending_kill = Some(PendingKill {
        pid,
        start_time,
        force: false,
        command: "victim".to_string(),
        start_ticks: None,
    });
    app.input_mode = InputMode::Confirm;
}

fn status_of(app: &App) -> String {
    app.status_line(0).unwrap_or("").to_string()
}

const OWN_PID: u32 = 4321;

#[test]
fn fabricated_backends_refuse_to_signal() {
    assert!(!BackendSource::Mock(2).detect().can_signal());
    assert!(BackendSource::Live.detect().can_signal());
    let replay = BackendSource::Replay("rec.jsonl".to_string()).detect();
    assert!(matches!(&replay, Detection::Open(p) if p == "rec.jsonl"));
    assert!(!replay.can_signal());
}

#[test]
fn polling_never_makes_foreign_pids_signalable() {
    for (source, signals) in [
        (BackendSource::Mock(2), false),
        (BackendSource::Replay("rec.jsonl".to_string()), false),
        (BackendSource::Live, true),
    ] {
        let mut app = app_from(source, "first", false);
        for i in 1..=20 {
            match app.poll(Err("gone".to_string())) {
                PollStep::Redetect(d) => {
                    assert_eq!(i % 5, 0);
                    assert_eq!(d.can_signal(), signals);
                    app.redetected("again".to_string(), true, 0);
                }
                PollStep::Kept => assert_ne!(i % 5, 0),
                other => panic!("{other:?}"),
            }
            assert_eq!(app.can_signal(), signals && i >= 5);
        }
        assert_eq!(app.backend_name, "again");
    }
}

#[test]
fn a_failing_replay_re_detects_to_a_replay_not_to_live_hardware() {
    let mut app = app_from(
        BackendSource::Replay("rec.jsonl".to_string()),
        "recording",
        false,
    );
    let mut again = 0;
    for _ in 0..12 {
        match app.poll(Err("the log went away".to_string())) {
            PollStep::Redetect(d) => {
                assert!(matches!(&d, Detection::Open(p) if p == "rec.jsonl"));
                app.redetected("replay".to_string(), d.can_signal(), 0);
                again += 1;
            }
            PollStep::Kept => {}
            other => panic!("{other:?}"),
        }
    }
    assert_eq!(again, 2, "every fifth failure detects again");
    assert_eq!(
        app.backend_name, "replay",
        "a re-detect swapped a recording for something else"
    );
    assert!(!app.can_signal(), "a re-detect made a recording signalable");

    arm(&mut app, 424242, 0);
    assert!(app.confirm_kill(OWN_PID, 0).is_none());
    assert!(
        status_of(&app).contains("not signalable"),
        "{}",
        status_of(&app)
    );
}

#[test]
fn kill_refuses_init_and_self() {
    let mut app = local_app();

    arm(&mut app, 1, 0);
    assert!(app.confirm_kill(OWN_PID, 0).is_none());
    assert!(status_of(&app).contains("pid 1"), "{}", status_of(&app));
    assert!(app.pending_kill.is_none());
    assert!(app.input_mode == InputMode::Normal);

    arm(&mut app, OWN_PID, 0);
    assert!(app.confirm_kill(OWN_PID, 0).is_none());
    assert!(
        status_of(&app).contains("gpur itself"),
        "{}",
        status_of(&app)
    );
}

#[test]
fn kill_refuses_when_the_backend_is_not_local() {
    let source = BackendSource::Mock(1);
    let local = source.detect().can_signal();
    let mut app = app_from(source, "mock", local);
    arm(&mut app, 424242, 0);
    assert!(app.confirm_kill(OWN_PID, 0).is_none());
    assert!(
        status_of(&app).contains("not signalable"),
        "{}",
        status_of(&app)
    );
}

#[test]
fn kill_refuses_a_pid_that_no_longer_exists() {
    let mut app = local_app();
    arm(&mut app, 4_194_300, 0);
    let k = app.confirm_kill(OWN_PID, 0).expect("nothing forbids it yet");
    assert!(!app.judge_target(&k, None, 0));
    assert!(
        status_of(&app).contains("no longer exists"),
        "{}",
        status_of(&app)
    );
}

#[test]
fn kill_refuses_a_recycled_pid() {
    let mut app = local_app();
    let child = Target {
        start_time: 1000,
        has_exe: true,
    };

    arm(&mut app, 77, child.start_time + 1);
    let k = app.confirm_kill(OWN_PID, 0).expect("nothing forbids it yet");
    assert!(!app.judge_target(&k, Some(child), 0));
    assert!(
        status_of(&app).contains("reused by another process"),
        "{}",
        status_of(&app)
    );

    arm(&mut app, 77, child.start_time);
    let k = app.confirm_kill(OWN_PID, 0).expect("nothing forbids it yet");
    assert!(app.judge_target(&k, Some(child), 0));
    assert!(app.judge_pin(&k, None, 0));
    app.report_pinned(&k, Delivery::Sent, 0);
    assert!(
        status_of(&app).contains("sent SIGTERM"),
        "{}",
        status_of(&app)
    );
}

#[test]
fn an_unsupported_signal_names_the_key_of_the_stronger_one() {
    let mut app = local_app();
    let k = PendingKill {
        pid: 77,
        start_time: 1000,
        force: false,
        command: "victim".to_string(),
        start_ticks: None,
    };
    app.report_plain(&k, None, 0);
    assert_eq!(
        status_of(&app),
        "kill: SIGTERM is unsupported on this platform — use X to send SIGKILL explicitly"
    );
    let strong = binds().into_iter().find(|b| b.action == Action::KillForce).unwrap();
    assert_eq!(strong.chord, "X");
}

#[test]
fn a_pinned_process_is_checked_to_the_tick() {
    let mut app = local_app();
    let k = PendingKill {
        pid: 77,
        start_time: 1000,
        force: true,
        command: "victim".to_string(),
        start_ticks: Some(55),
    };
    assert!(app.judge_pin(&k, Some(55), 0));
    assert!(!app.judge_pin(&k, Some(56), 0));
    assert_eq!(status_of(&app), "kill: pid 77 was reused by another process");
    assert!(!app.judge_pin(&k, None, 0));

    app.report_pinned(&k, Delivery::Gone, 0);
    assert!(status_of(&app).contains("exited before the signal was sent"));
    app.report_plain(&k, None, 0);
    assert_eq!(
        status_of(&app),
        "kill: SIGKILL is unsupported on this platform"
    );
    app.report_plain(&k, Some(true), 0);
    assert!(status_of(&app).contains("sent SIGKILL"), "{}", status_of(&app));

    let thread = Target {
        start_time: 1000,
        has_exe: false,
    };
    assert!(!app.judge_target(&k, Some(thread), 0));
    assert!(status_of(&app).contains("no executable"));
}

#[test]
fn parse_start_ticks_handles_comm_with_spaces_and_parens() {
    let stat = "1 (a)b) c) S 3 4 5 6 7 8 9 10 11 12 13 14 15 16 17 18 19 20 21 22 23";
    assert_eq!(parse_start_ticks(stat), Some(21));
    let plain = "9 (init) S 1 2 3 4 5 6 7 8 9 10 11 12 13 14 15 16 17 18 19 20";
    assert_eq!(parse_start_ticks(plain), Some(19));
    assert_eq!(parse_start_ticks(""), None);
    assert_eq!(parse_start_ticks("1"), None);
    assert_eq!(parse_start_ticks("1 (a) S 3 4"), None);
}

/// Every metric measured.
fn sortable_row(pid: u32) -> ProcRow {
    ProcRow {
        pid,
        gpu_index: 0,
        kind: ProcKind::Compute,
        gpu_util_pct: Some(reading(0.0)),
        gpu_mem_bytes: Some(0),
        user: "me".to_string(),
        cpu_pct: Some(Real32 {
            bits: 0.0_f32.to_bits(),
        }),
        host_mem_bytes: Some(0),
        command: "x".to_string(),
        container: None,
    }
}

#[test]
fn kill_needs_the_process_pane_focused() {
    let mut app = local_app();
    let mut row = sortable_row(OWN_PID);
    row.gpu_util_pct = None;
    row.command = "gpur".to_string();
    app.all_procs = vec![row];
    app.rebuild_proc_view();

    app.focus = Focus::Gpus;
    assert_eq!(app.apply(Action::KillTerm, 0), Effect::Continue);
    assert!(app.pending_kill.is_none());
    assert!(
        status_of(&app).contains("focus the process pane"),
        "{}",
        status_of(&app)
    );

    app.focus = Focus::Procs;
    assert_eq!(
        app.apply(Action::KillTerm, 0),
        Effect::Inspect {
            pid: OWN_PID,
            force: false
        }
    );
    app.open_kill(
        false,
        Some(LiveProcess {
            start_time: 7,
            start_ticks: Some(700),
        }),
        0,
    );
    let k = app.pending_kill.as_ref().expect("the dialog opens");
    assert_eq!((k.pid, k.start_time, k.start_ticks), (OWN_PID, 7, Some(700)));
    assert!(app.input_mode == InputMode::Confirm);
}

#[test]
fn cached_container_resolves_once_per_process_identity() {
    let mut cache = ContainerCache::new();
    let reads = std::cell::Cell::new(0);
    let resolve = || {
        reads.set(reads.get() + 1);
        Some("docker:abcdef123456".to_string())
    };
    assert_eq!(
        cached_container(&mut cache, 7, 100, resolve),
        Some("docker:abcdef123456".to_string())
    );
    assert_eq!(
        cached_container(&mut cache, 7, 100, resolve),
        Some("docker:abcdef123456".to_string())
    );
    assert_eq!(
        reads.get(),
        1,
        "the resolver ran again for the same process"
    );
    assert_eq!(
        cached_container(&mut cache, 7, 200, resolve),
        Some("docker:abcdef123456".to_string())
    );
    assert_eq!(reads.get(), 2);
    let mut cache2 = ContainerCache::new();
    let reads2 = std::cell::Cell::new(0);
    let none = || {
        reads2.set(reads2.get() + 1);
        None
    };
    assert_eq!(cached_container(&mut cache2, 9, 1, none), None);
    assert_eq!(cached_container(&mut cache2, 9, 1, none), None);
    assert_eq!(reads2.get(), 1);
}

fn host_of(start_time: u64) -> HostProcess {
    HostProcess {
        user: Some("me".to_string()),
        cpu_pct: Real32 {
            bits: 1.5_f32.to_bits(),
        },
        mem_bytes: 4096,
        command: "sleep 30".to_string(),
        start_time,
    }
}

#[test]
fn a_pid_that_leaves_the_gpu_table_is_pruned_from_the_container_cache() {
    let mut app = local_app();
    let gp = GpuProcess {
        pid: 77,
        ..Default::default()
    };
    let row = app.enrich(gp, Some(host_of(5)), || None);
    assert_eq!(row.user, "me");
    assert_eq!(row.command, "sleep 30");
    app.set_processes(vec![row], &vec![77]);
    assert_eq!(
        app.containers.len(),
        1,
        "the poll never resolved the child's container"
    );
    app.set_processes(Vec::new(), &vec![]);
    assert_eq!(
        app.containers.len(),
        0,
        "a departed pid left a stale container entry in the cache"
    );
}

#[test]
fn a_cpu_sample_is_due_only_once_sysinfos_minimum_interval_has_elapsed() {
    let interval = sysinfo::MINIMUM_CPU_UPDATE_INTERVAL.as_nanos() as u64;
    let last = 1_000_000_000;

    assert!(
        cpu_sample_due(None, last),
        "the first poll has no previous sample to be too close to"
    );
    assert!(
        !cpu_sample_due(Some(last), last + MIN_TICK_MS * 1_000_000),
        "a poll at the tick floor was taken as a CPU sample"
    );
    assert!(
        !cpu_sample_due(Some(last), last + interval - 1_000_000),
        "a sample one millisecond short of the interval still counted"
    );
    assert!(
        cpu_sample_due(Some(last), last + interval),
        "the documented minimum interval must be enough"
    );
    assert!(cpu_sample_due_after(Some(10), 30, 20));
    assert!(!cpu_sample_due_after(Some(10), 29, 20));
}

#[test]
fn the_startup_tick_clamp_floors_and_caps() {
    assert_eq!(clamp_tick_ms(0), MIN_TICK_MS);
    assert_eq!(clamp_tick_ms(50), 50);
    assert_eq!(clamp_tick_ms(9_999_999_999), MAX_TICK_MS);
}

#[test]
fn tick_faster_stops_at_the_shared_floor() {
    let mut app = local_app();
    app.tick_ms = MIN_TICK_MS;
    app.apply(Action::TickFaster, 0);
    assert_eq!(app.tick_ms, MIN_TICK_MS);

    app.tick_ms = MIN_TICK_MS * 2;
    app.apply(Action::TickFaster, 0);
    assert_eq!(app.tick_ms, MIN_TICK_MS);
    assert!(app.tick_explicit);
}

#[test]
fn tick_slower_clamps_a_huge_tick_instead_of_wrapping() {
    let mut app = local_app();
    app.tick_ms = 9_223_372_036_854_775_808;
    app.apply(Action::TickSlower, 0);
    assert_eq!(app.tick_ms, MAX_TICK_MS);
    assert!(app.tick_explicit);
}

#[test]
fn tick_stays_non_sticky_until_a_key_changes_it() {
    let app = local_app();
    assert!(!app.tick_explicit);
}

fn saved(folded: &[&str], tick_ms: u64, explicit: Option<bool>) -> UiState {
    UiState {
        folded_devices: folded.iter().map(|s| s.to_string()).collect(),
        sort_by: SortBy::Pid,
        sort_desc: false,
        tick_ms,
        tick_ms_explicit: explicit,
    }
}

#[test]
fn legacy_tick_state_is_honoured_once_then_demoted() {
    let legacy = saved(&[], 300, None);
    assert_eq!(legacy.sticky_tick_ms(), Some(300));
    assert!(!legacy.tick_chosen_by_key());

    let chosen = saved(&[], 300, Some(true));
    assert_eq!(chosen.sticky_tick_ms(), Some(300));
    assert!(chosen.tick_chosen_by_key());

    let config_only = saved(&[], 300, Some(false));
    assert_eq!(config_only.sticky_tick_ms(), None);
}

#[test]
fn filter_delete_word_removes_one_word_and_its_blanks() {
    let mut app = local_app();
    app.filter_input = "python train.py  ".to_string();
    app.filter_delete_word();
    assert_eq!(app.filter_input, "python ");
    app.filter_delete_word();
    assert_eq!(app.filter_input, "");
    app.filter_delete_word();
    assert_eq!(app.filter_input, "");
}

fn recorded() -> Vec<GpuProcess> {
    vec![
        GpuProcess {
            pid: 1,
            gpu_mem_bytes: Some(1),
            command: Some("idle".to_string()),
            user: Some("root".to_string()),
            ..Default::default()
        },
        GpuProcess {
            pid: 4242,
            gpu_mem_bytes: Some(2 << 30),
            command: Some("train.py".to_string()),
            user: Some("bob".to_string()),
            container: Some("docker:abcdef123456".to_string()),
            ..Default::default()
        },
    ]
}

/// Takes over the rows of these processes, none of which is local.
fn refresh(app: &mut App, procs: Vec<GpuProcess>) {
    let plan = app.plan_refresh(&procs, 0);
    let rows = procs
        .into_iter()
        .map(|p| app.enrich(p, None, || Some("docker:ffffffffffff".to_string())))
        .collect();
    app.set_processes(rows, &plan.pids);
}

#[test]
fn recorded_rows_win_over_local_resolution() {
    let mut app = local_app();
    refresh(&mut app, recorded());
    assert_eq!(app.all_procs.len(), 2);
    assert_eq!(
        app.all_procs[0].container.as_deref(),
        Some("docker:abcdef123456")
    );
    assert_eq!(app.all_procs[0].command, "train.py");
}

#[test]
fn the_filter_narrows_the_view_and_not_the_record() {
    let mut app = local_app();
    refresh(&mut app, recorded());
    app.filter = "TRAIN".to_string();
    app.sort_by = SortBy::Pid;
    app.sort_desc = false;
    app.rebuild_proc_view();
    assert_eq!(app.procs.len(), 1, "filter should narrow the UI view");
    assert_eq!(app.procs[0].pid, 4242);

    assert_eq!(
        app.all_procs.iter().map(|p| p.pid).collect::<Vec<_>>(),
        [4242, 1]
    );
}

#[test]
fn record_rows_sink_unknown_gpu_mem_below_every_known_figure() {
    let row = |pid, gpu_mem_bytes| GpuProcess {
        pid,
        gpu_mem_bytes,
        user: Some("me".to_string()),
        command: Some("x".to_string()),
        ..Default::default()
    };
    let mut app = local_app();
    refresh(
        &mut app,
        vec![
            row(30, None),
            row(10, Some(1 << 20)),
            row(20, None),
            row(40, Some(4 << 20)),
        ],
    );
    assert_eq!(
        app.all_procs.iter().map(|p| p.pid).collect::<Vec<_>>(),
        vec![40, 10, 20, 30],
        "unknown gpu-mem rows are not last, or did not tie-break on pid"
    );
    assert_eq!(app.all_procs[0].gpu_mem_bytes, Some(4 << 20));
    assert_eq!(app.all_procs[1].gpu_mem_bytes, Some(1 << 20));
    assert!(
        app.all_procs[2].gpu_mem_bytes.is_none() && app.all_procs[3].gpu_mem_bytes.is_none(),
        "an unreadable figure became a measurement"
    );
}

/// Adds a sample, with the sums that it leads to.
fn add(s: &mut SessionStats, g: &GpuSnapshot) {
    let util = float(s.util.sum) + g.utilization_pct.map_or(0.0, float);
    let power = float(s.power.sum) + g.power_w.map_or(0.0, float);
    s.add(g, reading(util), reading(power));
}

fn mean(m: Option<(Real, u64)>) -> Option<f64> {
    m.map(|(sum, n)| float(sum) / n as f64)
}

#[test]
fn session_peaks_stay_unknown_without_a_sensor() {
    let mut s = SessionStats::default();
    for util in [10.0, 90.0, 40.0] {
        add(
            &mut s,
            &GpuSnapshot {
                utilization_pct: Some(reading(util)),
                ..Default::default()
            },
        );
    }
    assert_eq!(s.max_util_pct.map(float), Some(90.0));
    assert_eq!(mean(s.avg_util_pct()), Some(140.0 / 3.0));
    assert_eq!(s.max_temp_c, None);
    assert_eq!(s.max_power_w, None);
    assert_eq!(mean(s.avg_power_w()), None);

    let mut blind = SessionStats::default();
    add(&mut blind, &GpuSnapshot::default());
    assert_eq!(blind.max_util_pct, None);
    assert_eq!(mean(blind.avg_util_pct()), None);
}

#[test]
fn averages_ignore_samples_with_no_reading() {
    let mut s = SessionStats::default();
    let sample = |w: Option<f64>| GpuSnapshot {
        utilization_pct: Some(reading(50.0)),
        power_w: w.map(reading),
        ..Default::default()
    };
    add(&mut s, &sample(Some(100.0)));
    add(&mut s, &sample(None));
    add(&mut s, &sample(None));
    add(&mut s, &sample(Some(200.0)));
    assert_eq!(mean(s.avg_power_w()), Some(150.0));
    assert_eq!(s.max_power_w.map(float), Some(200.0));
    assert_eq!(mean(s.avg_util_pct()), Some(50.0));
}

#[test]
fn a_peak_that_is_not_a_number_gives_way() {
    let mut s = SessionStats::default();
    for t in [f64::NAN, -3.0, f64::NAN, -5.0] {
        add(
            &mut s,
            &GpuSnapshot {
                temperature_c: Some(reading(t)),
                ..Default::default()
            },
        );
    }
    assert_eq!(s.max_temp_c.map(float), Some(-3.0));
}

/// Pids 1 and 3 carry a low and a high reading of the column, pid 2 none.
fn assert_unknown_sinks(sort_by: SortBy, set: impl Fn(&mut ProcRow, Option<f64>)) {
    let mut app = local_app();
    let row = |pid, v| {
        let mut r = sortable_row(pid);
        set(&mut r, v);
        r
    };
    app.all_procs = vec![row(1, Some(10.0)), row(2, None), row(3, Some(90.0))];
    app.sort_by = sort_by;

    app.sort_desc = true;
    app.rebuild_proc_view();
    assert_eq!(
        app.procs.iter().map(|p| p.pid).collect::<Vec<_>>(),
        vec![3, 1, 2],
        "{sort_by:?} descending did not sink the unmeasured row"
    );

    app.sort_desc = false;
    app.rebuild_proc_view();
    assert_eq!(
        app.procs.iter().map(|p| p.pid).collect::<Vec<_>>(),
        vec![1, 3, 2],
        "{sort_by:?} ascending sorted the unmeasured row as if it were 0"
    );
}

#[test]
fn rows_with_unknown_gpu_util_sink_in_both_directions() {
    assert_unknown_sinks(SortBy::GpuUtil, |r, v| r.gpu_util_pct = v.map(reading));
}

#[test]
fn rows_with_unknown_gpu_mem_sink_in_both_directions() {
    assert_unknown_sinks(SortBy::GpuMem, |r, v| {
        r.gpu_mem_bytes = v.map(|v| v as u64 * 1024 * 1024)
    });
}

#[test]
fn rows_with_unknown_cpu_sink_in_both_directions() {
    assert_unknown_sinks(SortBy::Cpu, |r, v| {
        r.cpu_pct = v.map(|v| Real32 {
            bits: (v as f32).to_bits(),
        })
    });
}

#[test]
fn rows_with_unknown_host_mem_sink_in_both_directions() {
    assert_unknown_sinks(SortBy::HostMem, |r, v| {
        r.host_mem_bytes = v.map(|v| v as u64 * 1024 * 1024)
    });
}

#[test]
fn history_separates_an_unreadable_sample_from_a_measured_zero() {
    let mut app = local_app();
    take(
        &mut app,
        vec![GpuSnapshot {
            device_id: Some("a".to_string()),
            utilization_pct: None,
            power_w: None,
            vram_used_bytes: Some(0),
            vram_total_bytes: Some(8 << 30),
            temperature_c: Some(reading(0.0)),
            ..Default::default()
        }],
    );
    let h = app.history_at(0).expect("history for card");
    assert_eq!(h.util, vec![None], "an unreadable utilization became a 0");
    assert_eq!(h.power, vec![None], "a missing power sensor became a 0");
    assert_eq!(h.mem, vec![Some(0)], "a measured-empty pool lost its 0");
    assert_eq!(h.temp, vec![Some(0)], "a measured 0°C became unknown");
}

#[test]
fn per_device_state_follows_the_device_across_a_reorder() {
    let mut app = local_app();
    poll(&mut app, &[(Some("a"), 10.0), (Some("b"), 90.0)]);
    poll(&mut app, &[(Some("b"), 20.0), (Some("a"), 30.0)]);

    assert_eq!(app.gpus[0].name, "b");
    assert_eq!(util_history(&app, 0), vec![Some(90), Some(20)]);
    assert_eq!(peak_util(&app, 0), Some(90.0));
    assert_eq!(util_history(&app, 1), vec![Some(10), Some(30)]);
    assert_eq!(peak_util(&app, 1), Some(30.0));
}

#[test]
fn a_returning_device_is_re_identified_not_treated_as_new() {
    let mut app = local_app();
    poll(&mut app, &[(Some("a"), 10.0), (Some("b"), 90.0)]);
    poll(&mut app, &[(Some("b"), 20.0)]);
    poll(&mut app, &[(Some("b"), 30.0), (Some("a"), 40.0)]);

    assert_eq!(app.gpus[1].name, "a");
    assert_eq!(util_history(&app, 1), vec![Some(10), Some(40)]);
    assert_eq!(peak_util(&app, 1), Some(40.0));
    assert_eq!(util_history(&app, 0), vec![Some(90), Some(20), Some(30)]);
}

#[test]
fn the_selection_follows_the_selected_device() {
    let mut app = local_app();
    poll(&mut app, &[(Some("a"), 1.0), (Some("b"), 2.0)]);
    app.selected = 1;
    poll(&mut app, &[(Some("c"), 3.0), (Some("a"), 1.0), (Some("b"), 2.0)]);
    assert_eq!(app.gpus[app.selected].name, "b");

    let mut app = local_app();
    poll(&mut app, &[(Some("a"), 1.0), (Some("b"), 2.0)]);
    app.selected = 1;
    poll(&mut app, &[(Some("a"), 1.0)]);
    assert_eq!(app.selected, 0);
}

#[test]
fn a_fold_survives_a_device_being_added_or_removed() {
    let mut app = local_app();
    poll(&mut app, &[(Some("a"), 1.0), (Some("b"), 2.0)]);
    app.selected = 1;
    app.apply(Action::Digit(1), 0);
    assert!(app.is_folded(1));

    poll(&mut app, &[(Some("c"), 3.0), (Some("a"), 1.0), (Some("b"), 2.0)]);
    assert!(app.is_folded(2), "the fold did not follow the device");
    assert!(!app.is_folded(0) && !app.is_folded(1));

    poll(&mut app, &[(Some("c"), 3.0), (Some("b"), 2.0)]);
    assert!(app.is_folded(1));
    assert!(!app.is_folded(0));
}

#[test]
fn only_identified_devices_persist_their_fold() {
    let mut app = local_app();
    poll(&mut app, &[(Some("a"), 1.0), (None, 2.0)]);
    app.selected = 0;
    app.apply(Action::Digit(0), 0);
    app.selected = 1;
    app.apply(Action::Digit(1), 0);
    assert!(app.is_folded(0) && app.is_folded(1));
    assert_eq!(app.persisted_folds(), vec!["a".to_string()]);
}

#[test]
fn legacy_positional_folds_are_dropped_not_applied() {
    let legacy = saved(&[], 300, None);
    assert!(legacy.folded_devices.is_empty());
    assert_eq!(legacy.sort_by, SortBy::Pid);
    assert_eq!(legacy.sticky_tick_ms(), Some(300));

    let mut app = local_app();
    app.restore_state(&legacy);
    poll(&mut app, &[(Some("a"), 1.0), (Some("b"), 2.0)]);
    assert!(!app.is_folded(0) && !app.is_folded(1));
}

#[test]
fn state_restored_by_id_folds_that_device_wherever_it_sits() {
    let state = saved(&["b"], 0, None);
    let mut app = local_app();
    app.restore_state(&state);
    poll(&mut app, &[(Some("c"), 3.0), (Some("a"), 1.0), (Some("b"), 2.0)]);
    assert!(app.is_folded(2));
    assert!(!app.is_folded(0) && !app.is_folded(1));
}

#[test]
fn unidentifiable_and_duplicate_ids_fall_back_to_position() {
    let snap = |id: Option<&str>| GpuSnapshot {
        device_id: id.map(str::to_string),
        ..Default::default()
    };
    assert_eq!(
        device_keys(&vec![snap(Some("a")), snap(None), snap(Some("a"))]),
        vec![
            DeviceKey::Id("a".to_string()),
            DeviceKey::Pos(1),
            DeviceKey::Pos(2)
        ]
    );
}

#[test]
fn state_for_departed_devices_is_bounded() {
    let churn = MAX_ABSENT_DEVICES * 3;
    let mut app = local_app();
    for i in 0..churn {
        take(
            &mut app,
            vec![GpuSnapshot {
                device_id: Some(format!("dev-{}", i + 1)),
                ..Default::default()
            }],
        );
    }
    assert_eq!(app.history.len(), 1 + MAX_ABSENT_DEVICES);
    assert_eq!(app.history.len(), app.session.len());
    assert_eq!(app.history.len(), app.last_seen.len());
    assert!(app.history.contains(app.keys.last().unwrap()));
}

#[test]
fn cgroup_container_detection() {
    assert_eq!(
        container_of_cgroup(
            "0::/system.slice/docker-abcdef123456789000000000000000000000000000000000000000000000dead.scope"
        )
        .as_deref(),
        Some("docker:abcdef123456")
    );
    assert_eq!(
        container_of_cgroup("0::/machine.slice/libpod-0123456789abcdef0123456789abcdef0123456789abcdef0123456789abcdef.scope")
            .as_deref(),
        Some("podman:0123456789ab")
    );
    assert_eq!(
        container_of_cgroup("0::/kubepods.slice/kubepods-burstable.slice/kubepods-burstable-pod1234.slice/cri-containerd-fedcba9876543210fedcba9876543210fedcba9876543210fedcba9876543210.scope")
            .as_deref(),
        Some("k8s:fedcba987654")
    );
    assert_eq!(
        container_of_cgroup(
            "12:pids:/docker/00ff00ff00ff00ff00ff00ff00ff00ff00ff00ff00ff00ff00ff00ff00ff00ff"
        )
        .as_deref(),
        Some("docker:00ff00ff00ff")
    );
    assert_eq!(
        container_of_cgroup("0::/user.slice/user-1000.slice/session-2.scope"),
        None
    );
    assert_eq!(container_of_cgroup("0::/system.slice/sshd.service"), None);
}

#[test]
fn what_a_quit_saves_the_next_session_restores() {
    let mut app = local_app();
    poll(&mut app, &[(Some("GPU-def"), 1.0), (Some("GPU-abc"), 2.0)]);
    app.toggle_fold(0);
    app.toggle_fold(1);
    app.sort_by = SortBy::Pid;
    app.sort_desc = false;
    app.tick_ms = 250;
    app.tick_explicit = true;
    let s = app.save_state();
    assert_eq!(s.folded_devices, ["GPU-abc", "GPU-def"]);
    assert_eq!(s.sticky_tick_ms(), Some(250));

    let mut next = local_app();
    next.restore_state(&s);
    poll(&mut next, &[(Some("GPU-new"), 1.0), (Some("GPU-abc"), 2.0)]);
    assert!(!next.is_folded(0) && next.is_folded(1));
    assert_eq!((next.sort_by, next.sort_desc), (SortBy::Pid, false));
    next.toggle_fold(1);
    next.toggle_fold(1);
    assert!(next.is_folded(1));
}

#[test]
fn an_unreadable_figure_goes_below_a_readable_one() {
    assert_eq!(gpur::app::process::unmeasured_last(false, true), Some(Ordering::Less));
    assert_eq!(gpur::app::process::unmeasured_last(true, false), Some(Ordering::Greater));
    assert_eq!(gpur::app::process::unmeasured_last(true, true), None);
    assert_eq!(gpur::app::process::unmeasured_last(false, false), None);
}

#[test]
fn a_signal_goes_through_every_stage() {
    let found = Target {
        start_time: 1000,
        has_exe: true,
    };
    let mut app = local_app();
    arm(&mut app, 77, 1000);
    let stage = app.begin_kill(OWN_PID, 0);
    assert!(matches!(&stage, Stage::Inspect(k) if k.pid == 77));
    let stage = app.kill_step(stage, Report::Found(Some(found)), 0);
    assert!(matches!(&stage, Stage::Pin(k) if k.pid == 77));
    let stage = app.kill_step(stage, Report::Held(None), 0);
    assert!(matches!(&stage, Stage::SendPinned(k) if !k.force));
    let stage = app.kill_step(stage, Report::Delivered(Delivery::Sent), 0);
    assert!(matches!(stage, Stage::Done));
    assert_eq!(status_of(&app), "sent SIGTERM to 77 (victim)");

    arm(&mut app, 77, 1000);
    let stage = app.begin_kill(OWN_PID, 0);
    let stage = app.kill_step(stage, Report::Found(Some(found)), 0);
    let stage = app.kill_step(stage, Report::NotHeld, 0);
    assert!(matches!(&stage, Stage::SendPlain(_)));
    let stage = app.kill_step(stage, Report::Answered(Some(false)), 0);
    assert!(matches!(stage, Stage::Done));
    assert!(status_of(&app).contains("failed"), "{}", status_of(&app));
}

#[test]
fn a_report_that_no_stage_asked_for_sends_nothing() {
    let mut app = local_app();
    arm(&mut app, 77, 1000);
    let stage = app.begin_kill(OWN_PID, 0);
    // The process was never looked up.
    let stage = app.kill_step(stage, Report::NotHeld, 0);
    assert!(matches!(stage, Stage::Done));
    arm(&mut app, 1, 1000);
    assert!(matches!(app.begin_kill(OWN_PID, 0), Stage::Done));
    assert!(matches!(app.begin_kill(OWN_PID, 0), Stage::Done));
    arm(&mut app, 77, 1000);
    let stage = app.begin_kill(OWN_PID, 0);
    let found = Target {
        start_time: 1000,
        has_exe: true,
    };
    let stage = app.kill_step(stage, Report::Found(Some(found)), 0);
    let stage = app.kill_step(stage, Report::Held(Some(5)), 0);
    assert!(matches!(stage, Stage::Done));
    assert!(status_of(&app).contains("reused"), "{}", status_of(&app));
}
