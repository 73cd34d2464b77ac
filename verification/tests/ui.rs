use gpur::app::history::SessionStats;
use gpur::app::GraphStyle;
use gpur::backend::GpuSnapshot;
use gpur::order::Real;
use gpur::ui::card::{
    meter, pct_or_na, session_line, track_glyphs, track_width, vram_value, SessionFigures,
};
use gpur::ui::graph::{mini_spark, ramp_glyph, samples_per_column};
use gpur::ui::layout::{
    cards_that_fit, popup_width, proc_pane_height, stacked_height, CARD_MIN,
};
use gpur::ui::line::{Part, Span};

fn reading(x: f64) -> Real {
    Real { bits: x.to_bits() }
}

fn float(x: Real) -> f64 {
    f64::from_bits(x.bits)
}

fn text_of(parts: &[Part]) -> String {
    let mut s = String::new();
    for p in parts {
        match p {
            Part::Text(t) => s.push_str(t),
            Part::Fixed { value, width, decimals } => s.push_str(&format!(
                "{:>w$.d$}",
                float(*value),
                w = *width as usize,
                d = *decimals as usize
            )),
            Part::Fixed32 { value32, width, decimals } => s.push_str(&format!(
                "{:>w$.d$}",
                f32::from_bits(value32.bits),
                w = *width as usize,
                d = *decimals as usize
            )),
            Part::Volts(mv) => s.push_str(&format!("{:.2}", *mv as f64 / 1000.0)),
        }
    }
    s
}

fn line_text(line: &[Span]) -> String {
    line.iter().map(|s| text_of(&s.parts)).collect()
}

/// A utilization meter of forty columns, as it is drawn.
fn drawn(gpu: &GpuSnapshot) -> String {
    let value = format!(" {} ", text_of(&pct_or_na(gpu.utilization_pct)));
    let filled = gpu
        .utilization_pct
        .map(|u| (float(u) / 100.0 * track_width(40, "GPU ", &value) as f64).round() as usize);
    let m = meter("GPU ", &value, 40, filled);
    let (full, empty) = track_glyphs(GraphStyle::Ascii);
    let mut s = m.label.clone();
    if let Some((n, of)) = m.track {
        s.extend((0..of).map(|i| if i < n { full } else { empty }));
    }
    s.push_str(&m.value);
    s
}

#[test]
fn unknown_utilization_renders_na_not_a_zero_meter() {
    let unknown = drawn(&GpuSnapshot::default());
    assert!(unknown.contains("n/a"), "{unknown:?}");
    assert!(
        !unknown.contains('=') && !unknown.contains('.'),
        "unknown metric drew a meter track: {unknown:?}"
    );

    let idle = drawn(&GpuSnapshot {
        utilization_pct: Some(reading(0.0)),
        ..Default::default()
    });
    assert!(idle.contains('.'), "idle GPU lost its meter: {idle:?}");
    assert!(idle.trim_end().ends_with("0%"), "{idle:?}");
    assert!(!idle.contains("n/a"), "{idle:?}");
}

#[test]
fn vram_readout_distinguishes_absent_from_empty() {
    assert_eq!(vram_value(&GpuSnapshot::default()), "n/a");
    assert_eq!(
        vram_value(&GpuSnapshot {
            vram_used_bytes: Some(0),
            vram_total_bytes: Some(0),
            ..Default::default()
        }),
        "0M/0M"
    );
    assert_eq!(
        vram_value(&GpuSnapshot {
            vram_used_bytes: Some(2 << 30),
            ..Default::default()
        }),
        "2.0G/n/a"
    );
}

/// What `session_line` shows of some stats: the means divided out.
fn figures(s: &SessionStats) -> SessionFigures {
    let mean = |m: Option<(Real, u64)>| m.map(|(sum, n)| reading(float(sum) / n as f64));
    SessionFigures {
        max_util_pct: s.max_util_pct,
        max_temp_c: s.max_temp_c,
        max_power_w: s.max_power_w,
        avg_util_pct: mean(s.avg_util_pct()),
        avg_power_w: mean(s.avg_power_w()),
    }
}

/// Adds a sample, with the sums that it leads to.
fn add(s: &mut SessionStats, g: &GpuSnapshot) {
    let util = float(s.util.sum) + g.utilization_pct.map_or(0.0, float);
    let power = float(s.power.sum) + g.power_w.map_or(0.0, float);
    s.add(g, reading(util), reading(power));
}

#[test]
fn session_line_omits_sensors_that_never_reported() {
    let text = |s: &SessionStats| session_line(&figures(s)).map(|l| line_text(&l));

    let mut util_only = SessionStats::default();
    add(
        &mut util_only,
        &GpuSnapshot {
            utilization_pct: Some(reading(80.0)),
            ..Default::default()
        },
    );
    let line = text(&util_only).expect("a session line");
    assert!(line.contains("peak  80%"), "{line:?}");
    assert!(!line.contains("°C"), "fabricated a temperature: {line:?}");
    assert!(!line.contains('W'), "fabricated a power draw: {line:?}");

    let mut nothing = SessionStats::default();
    add(&mut nothing, &GpuSnapshot::default());
    assert_eq!(text(&nothing), None);

    let mut full = SessionStats::default();
    add(
        &mut full,
        &GpuSnapshot {
            utilization_pct: Some(reading(80.0)),
            temperature_c: Some(reading(71.0)),
            power_w: Some(reading(300.0)),
            ..Default::default()
        },
    );
    let line = text(&full).expect("a session line");
    assert!(line.contains("71°C") && line.contains("300W"), "{line:?}");
}

#[test]
fn proc_pane_height_never_overflows() {
    for h in [21845, 21846, 30000, u16::MAX] {
        let p = proc_pane_height(h, 4);
        assert!(p < h, "gpu pane starved at {h}");
    }
    assert!(proc_pane_height(100, usize::MAX) <= 30);
}

#[test]
fn proc_pane_height_leaves_the_gpu_pane_a_row() {
    for h in 0..=8u16 {
        let p = proc_pane_height(h, 50);
        assert!(p <= h.saturating_sub(1), "no room left for GPUs at {h}");
    }
    assert_eq!(proc_pane_height(0, 3), 0);
    assert_eq!(proc_pane_height(1, 3), 0);
    assert_eq!(proc_pane_height(5, 3), 4);
}

#[test]
fn proc_pane_height_caps_at_30_percent() {
    assert_eq!(proc_pane_height(100, 50), 30);
    assert_eq!(proc_pane_height(100, 5), 8);
}

#[test]
fn card_stack_height_never_overflows() {
    let cards = 8192;
    let needed = stacked_height(&vec![CARD_MIN; cards]);
    assert_eq!(needed, cards as u64 * CARD_MIN as u64);
    assert!(needed > u16::MAX as u64, "no longer the overflow case");
    assert_eq!(stacked_height(&vec![1, CARD_MIN, 1]), CARD_MIN as u64 + 2);
    assert_eq!(stacked_height(&vec![]), 0);
}

#[test]
fn cards_that_fit_stops_at_the_pane_edge() {
    assert_eq!(cards_that_fit(&vec![CARD_MIN; 4], u16::MAX), 4);
    assert_eq!(cards_that_fit(&vec![CARD_MIN; 20_000], u16::MAX), 8191);
    assert_eq!(cards_that_fit(&vec![CARD_MIN; 4], 20), 2);
    assert_eq!(cards_that_fit(&vec![1, 1, CARD_MIN], 8), 2);
    assert_eq!(cards_that_fit(&vec![CARD_MIN; 4], 0), 0);
}

#[test]
fn history_retention_matches_what_the_glyph_set_can_draw() {
    assert_eq!(samples_per_column(GraphStyle::Braille), 2);
    assert_eq!(samples_per_column(GraphStyle::Block), 1);
    assert_eq!(samples_per_column(GraphStyle::Ascii), 1);
}

#[test]
fn popup_width_counts_chars_not_bytes() {
    let ascii = popup_width(&["send SIGTERM to 42?", "/usr/bin/renderer"]);
    let wide = popup_width(&["send SIGTERM to 42?", "/usr/bin/rendérér"]);
    assert_eq!(ascii, 19 + 6);
    assert_eq!(wide, ascii, "accents must not widen the dialog");
    assert_eq!(popup_width(&[]), 6);
}

#[test]
fn ascii_ramp_baseline_only_reachable_from_mini_spark() {
    assert_eq!(ramp_glyph(0), '_');
    assert_eq!(
        mini_spark(&vec![Some(0); 5], 100, GraphStyle::Ascii),
        "_____"
    );
    assert_eq!(
        mini_spark(&vec![Some(100); 5], 100, GraphStyle::Ascii),
        "#####"
    );
}
