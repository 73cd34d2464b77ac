use gpur::backend::{GpuSnapshot, MemReadout};

/// A pool's fill level in percent.
fn pct(m: MemReadout) -> Option<f64> {
    m.fill()
        .map(|(used, total)| used as f64 / total as f64 * 100.0)
}

#[test]
fn a_discrete_card_meters_its_own_vram_and_keeps_gtt_beside_it() {
    let g = GpuSnapshot {
        vram_used_bytes: Some(8 << 30),
        vram_total_bytes: Some(24 << 30),
        gtt_used_bytes: Some(3 << 30),
        gtt_total_bytes: Some(16 << 30),
        ..Default::default()
    };
    let m = g.mem_primary();
    assert_eq!((m.used, m.total), (Some(8 << 30), Some(24 << 30)));
    assert!(!m.shared, "a card's own VRAM is not system RAM");
    let s = g.mem_secondary().expect("GTT is a pool of its own here");
    assert_eq!((s.used, s.total), (Some(3 << 30), Some(16 << 30)));
    assert!(!s.shared, "GTT on a dGPU is mapped host RAM, not unified");
    assert_eq!(pct(g.mem_primary()), Some(1.0 / 3.0 * 100.0));
}

#[test]
fn an_igpu_with_no_local_pool_meters_the_system_one() {
    let g = GpuSnapshot {
        integrated: true,
        gtt_used_bytes: Some(734 << 20),
        gtt_total_bytes: Some(15 << 30),
        ..Default::default()
    };
    let m = g.mem_primary();
    assert_eq!((m.used, m.total), (Some(734 << 20), Some(15 << 30)));
    assert!(m.shared);
    assert_eq!(g.mem_secondary(), None, "one pool, so nothing beside it");
    assert!(
        pct(g.mem_primary()).is_some(),
        "the memory graph must not stay blank"
    );
}

#[test]
fn unified_memory_arriving_through_the_vram_fields_is_still_shared() {
    let g = GpuSnapshot {
        integrated: true,
        vram_used_bytes: Some(12 << 30),
        vram_total_bytes: Some(32 << 30),
        ..Default::default()
    };
    let m = g.mem_primary();
    assert_eq!((m.used, m.total), (Some(12 << 30), Some(32 << 30)));
    assert!(m.shared, "32 GB of dedicated VRAM is what this is not");
    assert_eq!(g.mem_secondary(), None);
}

#[test]
fn an_apu_meters_its_carve_out_and_calls_the_rest_shared() {
    let g = GpuSnapshot {
        integrated: true,
        vram_used_bytes: Some(412 << 20),
        vram_total_bytes: Some(512 << 20),
        gtt_used_bytes: Some(3 << 30),
        gtt_total_bytes: Some(16 << 30),
        ..Default::default()
    };
    let m = g.mem_primary();
    assert_eq!((m.used, m.total), (Some(412 << 20), Some(512 << 20)));
    assert!(!m.shared, "the carve-out is reserved for the GPU alone");
    let s = g
        .mem_secondary()
        .expect("the system pool is the other half");
    assert!(s.shared, "nothing spilled anywhere on an APU");
}

#[test]
fn a_card_with_no_memory_figures_at_all_reports_none() {
    let g = GpuSnapshot::default();
    let m = g.mem_primary();
    assert_eq!((m.used, m.total), (None, None));
    assert_eq!(g.mem_secondary(), None);
    assert_eq!(pct(g.mem_primary()), None);
}

#[test]
fn one_known_half_still_selects_the_pool_it_came_from() {
    let g = GpuSnapshot {
        vram_used_bytes: Some(2 << 30),
        gtt_used_bytes: Some(9 << 30),
        ..Default::default()
    };
    let m = g.mem_primary();
    assert_eq!((m.used, m.total), (Some(2 << 30), None));
    assert_eq!(pct(m), None, "no total, so no fill level to draw");
    assert!(g.mem_secondary().is_some());
}

#[test]
fn a_measured_empty_pool_is_not_an_absent_one() {
    let g = GpuSnapshot {
        vram_used_bytes: Some(0),
        vram_total_bytes: Some(8 << 30),
        ..Default::default()
    };
    assert_eq!(pct(g.mem_primary()), Some(0.0));
    assert_eq!(
        pct(MemReadout {
            used: Some(0),
            total: Some(0),
            shared: false
        }),
        None
    );
}
