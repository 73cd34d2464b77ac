use gpur::backend::mock::{MockBackend, PID_BASE};
use gpur::backend::ProcKind;

#[test]
fn fabricated_rows_stay_above_the_base() {
    let b = MockBackend::new(2);
    assert_eq!(b.name(), "mock");
    assert!(!b.can_signal());
    let rows = b.rows(77);
    assert_eq!(rows.len(), 6);
    assert_eq!(rows[0].pid, 77);
    assert_eq!((&rows[0].user, &rows[0].command), (&None, &None));
    for (i, r) in rows.iter().enumerate().skip(1) {
        assert_eq!(r.pid, PID_BASE + i as u32);
        assert_eq!(r.gpu_index, i % 2);
        assert_eq!(r.kind == ProcKind::Graphics, i % 3 == 0);
        assert!(r.user.is_some() && r.command.is_some());
    }
    assert_eq!(rows[1].gpu_mem_bytes, (1500 + 64) << 20);
    assert_eq!(rows[2].host_mem_bytes, Some(100 << 20));
}

#[test]
fn every_nth_poll_can_be_made_to_fail() {
    let mut b = MockBackend::new(1);
    assert_eq!(b.advance(Some(3)), Ok(1));
    assert_eq!(b.advance(Some(3)), Ok(2));
    assert_eq!(
        b.advance(Some(3)),
        Err("simulated driver reset (tick 3)".to_string())
    );
    assert_eq!(b.advance(Some(0)), Ok(4));
    assert_eq!(b.advance(None), Ok(5));
}

#[test]
fn the_first_card_is_integrated_and_the_second_on_a_narrow_slot() {
    let cards = MockBackend::new(3).cards();
    assert_eq!(cards[2].name, "Mock GPU 2");
    let fixed: Vec<(bool, u8, u32)> =
        cards.iter().map(|c| (c.integrated, c.pcie_gen, c.pcie_width)).collect();
    assert_eq!(fixed, [(true, 4, 16), (false, 3, 8), (false, 4, 16)]);
}

#[test]
fn what_is_fixed_about_a_card() {
    let b = MockBackend::new(2);
    assert_eq!(b.driver_info(), "mock driver 1.0");
    for c in b.cards() {
        assert_eq!((c.vram_total_bytes, c.gtt_total_bytes), (16 << 30, 8 << 30));
        assert_eq!((c.power_limit_w, c.mem_clock_mhz), (320, 9000));
        assert_eq!((c.pcie_max_gen, c.pcie_max_width), (4, 16));
    }
}

#[test]
fn demonstrations_repeat() {
    let (mut a, mut b) = (MockBackend::new(3), MockBackend::new(3));
    for _ in 0..4 {
        assert_eq!(a.advance(None), b.advance(None));
        b.cards();
    }
    assert_eq!((a.tick, a.count), (4, 3));
    assert_eq!((b.tick, b.count), (4, 3));
    assert_eq!(format!("{:?}", a.cards()), format!("{:?}", b.cards()));
    assert_eq!(format!("{:?}", a.rows(7)), format!("{:?}", b.rows(7)));
}
