use gpur::app::history::{History, Sample};
use gpur::app::process::ProcRow;
use gpur::app::refresh::{command_of, departed, pids_of};
use gpur::app::{App, AppOptions, GraphStyle, InputMode, Rect};
use gpur::backend::{BackendSource, GpuProcess, GpuSnapshot, ProcKind};
use gpur::cli::Cli;
use gpur::config::GpurConfig;
use gpur::order::{Real, Real32};
use gpur::ui::card::{card_caption, card_title, folded_line, info_line};
use gpur::ui::format::{human_bytes, kbs};
use gpur::ui::graph::{mini_spark, waveform, windowed};
use gpur::ui::line::{Part, Span};
use gpur::ui::procs::{column_widths, row_cells, ProcsView};
use gpur::ui::screen::{card_once, footer_line, header_line, process_once};

fn reading(x: f64) -> Real {
    Real { bits: x.to_bits() }
}

fn text_of(parts: &[Part]) -> String {
    let mut s = String::new();
    for p in parts {
        match p {
            Part::Text(t) => s.push_str(t),
            Part::Fixed { value, width, decimals } => s.push_str(&format!(
                "{:>w$.d$}",
                f64::from_bits(value.bits),
                w = *width as usize,
                d = *decimals as usize
            )),
            Part::Fixed32 { value32, width, decimals } => s.push_str(&format!(
                "{:>w$.d$}",
                f32::from_bits(value32.bits),
                w = *width as usize,
                d = *decimals as usize
            )),
            Part::Volts(mv) => s.push_str(&format!("{:.2}", *mv as f64 / 1000.0)),
        }
    }
    s
}

fn line_text(line: &[Span]) -> String {
    line.iter().map(|s| text_of(&s.parts)).collect()
}

#[test]
fn byte_counts_read_as_floats_would_print_them() {
    let by_float = |b: u64| {
        let gib = b as f64 / (1u64 << 30) as f64;
        if gib >= 10.0 {
            format!("{gib:.0}G")
        } else if gib >= 1.0 {
            format!("{gib:.1}G")
        } else {
            format!("{}M", b >> 20)
        }
    };
    let mut b: u64 = 1;
    let mut step: u64 = 12345;
    for i in 0..4000u64 {
        assert_eq!(human_bytes(b), by_float(b), "{b}");
        step = step.wrapping_mul(6364136223846793005).wrapping_add(1442695040888963407);
        b = step >> (i % 50);
    }
    for b in [0, (1 << 30) - 1, 1 << 30, (10 << 30) - 1, 10 << 30, u64::MAX] {
        assert_eq!(human_bytes(b), by_float(b), "{b}");
    }
    assert_eq!(human_bytes(1_610_612_736), "1.5G");
}

#[test]
fn rates_read_as_floats_would_print_them() {
    let by_float = |v: u64| {
        if v >= 1024 * 1024 {
            format!("{:.1}GiB/s", v as f64 / (1024.0 * 1024.0))
        } else if v >= 1024 {
            format!("{:.1}MiB/s", v as f64 / 1024.0)
        } else {
            format!("{v}KiB/s")
        }
    };
    for v in (0..3_000_000).step_by(37).chain([1023, 1024, 1048575, 1048576, u64::MAX]) {
        assert_eq!(kbs(v), by_float(v), "{v}");
    }
}

fn cli() -> Cli {
    Cli {
        mock: None,
        config: None,
        theme: None,
        tick_ms: None,
        no_splash: false,
        once: false,
        json: false,
        graphs: None,
        log: None,
        replay: None,
        completions: None,
        man: false,
    }
}

#[test]
fn an_unknown_glyph_set_is_named_in_the_error() {
    let mut cfg = GpurConfig::default();
    assert_eq!(cli().graph_style(&cfg), Ok(GraphStyle::Braille));
    cfg.graphs = "ASCII".to_string();
    assert_eq!(cli().graph_style(&cfg), Ok(GraphStyle::Ascii));
    cfg.graphs = "do\"ts\n".to_string();
    assert_eq!(
        cli().graph_style(&cfg),
        Err(
            "unknown graphs value \"do\\\"ts\\n\" in config (expected braille, block, or ascii)"
                .to_string()
        )
    );
    let chosen = Cli {
        graphs: Some(GraphStyle::Block),
        ..cli()
    };
    assert_eq!(chosen.graph_style(&cfg), Ok(GraphStyle::Block));
}

#[test]
fn options_win_over_settings() {
    let cfg = GpurConfig {
        theme: Some("b.toml".to_string()),
        ..GpurConfig::default()
    };
    let own = Cli {
        theme: Some("a.toml".to_string()),
        json: true,
        ..cli()
    };
    assert_eq!(own.theme_path(&cfg).as_deref(), Some("a.toml"));
    assert_eq!(cli().theme_path(&cfg).as_deref(), Some("b.toml"));
    assert_eq!(cli().theme_path(&GpurConfig::default()), None);
    assert!(own.headless() && !cli().headless());
    assert_eq!((cfg.tick_ms, cfg.history_len), (1000, 300));
}

fn app() -> App {
    App::new(
        AppOptions {
            tick_ms: 250,
            tick_explicit: false,
            history_len: 60,
            no_splash: true,
            graph_style: GraphStyle::Ascii,
            source: BackendSource::Live,
            backend_name: "nvml".to_string(),
            backend_local: true,
        },
        0,
    )
}

#[test]
fn the_header_says_what_is_the_matter() {
    let mut a = app();
    assert_eq!(line_text(&header_line(&a, "1.2", &None, 0)), " gpur v1.2 [nvml] 250ms ");
    a.paused = true;
    a.poll_error = Some("poll failed: x".to_string());
    a.set_status("sent".to_string(), 0);
    let drv = Some("550.1".to_string());
    assert_eq!(
        line_text(&header_line(&a, "1.2", &drv, 1)),
        " gpur v1.2 [nvml] 250ms 550.1 PAUSED ⚠ poll failed: x · sent "
    );
    assert!(!line_text(&header_line(&a, "1.2", &drv, 60_000_000_000)).contains("sent"));

    a.input_mode = InputMode::Filter;
    a.filter_input = "abc".to_string();
    assert!(line_text(&footer_line(&a)).starts_with(" filter> abc█"));
}

fn card() -> GpuSnapshot {
    GpuSnapshot {
        name: "RTX".to_string(),
        utilization_pct: Some(reading(7.4)),
        temperature_c: Some(reading(61.0)),
        power_w: Some(reading(119.6)),
        vram_used_bytes: Some(3 << 30),
        vram_total_bytes: Some(8 << 30),
        fan_rpm: Some(1200),
        ..Default::default()
    }
}

#[test]
fn plain_output_says_what_could_not_be_read() {
    assert_eq!(
        text_of(&card_once(1, &card())),
        "1  RTX  util   7%  vram 3072MiB/8192MiB  61°C  120W"
    );
    assert_eq!(
        text_of(&card_once(0, &GpuSnapshot::default())),
        "0    util n/a  vram n/a/n/a"
    );
    let row = row();
    assert_eq!(
        text_of(&process_once(&row)),
        "  pid      42  gpu 0     -    512MiB  train"
    );
    let unknown = ProcRow {
        gpu_mem_bytes: None,
        gpu_util_pct: Some(reading(33.0)),
        ..row
    };
    assert_eq!(
        text_of(&process_once(&unknown)),
        "  pid      42  gpu 0   33%       n/a  train"
    );
}

fn row() -> ProcRow {
    ProcRow {
        pid: 42,
        gpu_index: 0,
        kind: ProcKind::Compute,
        gpu_util_pct: None,
        gpu_mem_bytes: Some(512 << 20),
        user: "me".to_string(),
        cpu_pct: Some(Real32 {
            bits: 12.6_f32.to_bits(),
        }),
        host_mem_bytes: None,
        command: "train".to_string(),
        container: None,
    }
}

#[test]
fn a_row_has_a_cell_per_column() {
    let texts = |c| -> Vec<String> { row_cells(&row(), c).iter().map(|p| text_of(p)).collect() };
    assert_eq!(
        texts(false),
        ["42", "me", "0", "Compute", "N/A", "512MiB", " 13%", "N/A", "train"]
    );
    assert_eq!(texts(true)[8], "-");
    for c in [false, true] {
        assert_eq!(column_widths(c).len() + 1, texts(c).len());
    }
}

#[test]
fn the_table_keeps_its_cursor_on_screen() {
    let mut a = app();
    a.all_procs = (1..=20)
        .map(|pid| ProcRow { pid, ..row() })
        .collect();
    a.rebuild_proc_view();
    a.proc_sel = 15;
    let area = Rect { x: 0, y: 0, width: 80, height: 8 };
    match a.lay_out_processes(area) {
        ProcsView::Table { rows, headings, .. } => {
            assert!(rows.iter().any(|r| r.selected));
            assert_eq!(rows.len(), a.proc_visible);
            assert_eq!(headings[0], "PID");
        }
        other => panic!("{other:?}"),
    }
    assert!((a.proc_scroll..a.proc_scroll + a.proc_visible).contains(&15));
}

#[test]
fn a_card_leaves_out_what_it_cannot_read() {
    let g = card();
    assert_eq!(card_title(2, &g.name), "2·RTX");
    let h = History::default();
    let full = line_text(&info_line(&g, Some(&h), 200, GraphStyle::Ascii));
    assert!(full.contains("61") && full.contains("120"), "{full:?}");
    assert!(full.contains("1200"), "{full:?}");
    let none = line_text(&info_line(&GpuSnapshot::default(), None, 200, GraphStyle::Ascii));
    assert!(!none.contains("°C") && !none.contains('W'), "{none:?}");
    assert!(line_text(&folded_line(&g, 2, true)).contains("RTX"));
    assert!(line_text(&card_caption(&GpuSnapshot::default())).trim().is_empty());
}

#[test]
fn sparks_scale_and_leave_unread_cells_blank() {
    let data = vec![Some(0), Some(25), None, Some(75), Some(100)];
    assert_eq!(mini_spark(&data, 100, GraphStyle::Ascii).chars().nth(2), Some(' '));
    let block = mini_spark(&data, 100, GraphStyle::Block);
    assert_eq!(block.chars().last(), Some('█'));
    let full = mini_spark(&vec![Some(100); 10], 100, GraphStyle::Braille);
    assert_eq!(full, "⣿⣿⣿⣿⣿");
    assert_eq!(windowed(&vec![Some(1), Some(2)], 0, 3), Some(0));
    assert_eq!(windowed(&vec![Some(1), Some(2)], 2, 3), Some(2));
}

#[test]
fn a_waveform_stays_in_its_area_and_always_has_a_midline() {
    let area = Rect { x: 3, y: 4, width: 12, height: 7 };
    for style in [GraphStyle::Braille, GraphStyle::Block, GraphStyle::Ascii] {
        let up: Vec<Option<u64>> = (0..30).map(|i| (i % 4 != 0).then_some(i * 4)).collect();
        let cells = waveform(area, &up, &vec![None; 3], style);
        for c in &cells {
            assert!((3..15).contains(&c.x) && (4..11).contains(&c.y), "{c:?}");
        }
        for x in 3..15 {
            for lower in [false, true] {
                assert!(cells.iter().any(|c| c.x == x && c.lower == lower && c.cy == 0));
            }
        }
    }
    let low = Rect { height: 1, ..area };
    assert!(waveform(low, &vec![], &vec![], GraphStyle::Block).is_empty());
}

#[test]
fn a_full_history_keeps_its_newest_samples() {
    let mut h = History::default();
    for i in 0..10 {
        let s = Sample {
            util: Some(i),
            mem: None,
            power: Some(2 * i),
            temp: None,
        };
        h.push(s, 4);
    }
    assert_eq!(h.util, [Some(6), Some(7), Some(8), Some(9)]);
    assert_eq!(h.power, [Some(12), Some(14), Some(16), Some(18)]);
    assert_eq!(h.mem, [None; 4]);
}

#[test]
fn a_refresh_asks_for_each_process_once() {
    let p = |pid| GpuProcess {
        pid,
        ..Default::default()
    };
    assert_eq!(pids_of(&vec![p(7), p(3), p(7), p(1)]), [1, 3, 7]);
    assert_eq!(departed(&vec![1, 2, 3], &vec![3, 1]), [2]);
    let args = |v: &[&str]| v.iter().map(|s| s.to_string()).collect::<Vec<_>>();
    assert_eq!(command_of(&args(&["python", "train.py"]), "py"), "python train.py");
    assert_eq!(command_of(&args(&[]), "kworker"), "kworker");
    assert_eq!(command_of(&args(&["", " "]), "kworker"), "kworker");
}
