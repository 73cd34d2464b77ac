use gpur::backend::linux::sysfs::{CardEntry, LinkTexts};
use gpur::backend::nvidia::{
    driver_line, fans_to_ask, field_temp_c, fold_util, highest, kb_to_kib, mem_bytes,
    merge_processes, merged_driver_info, merged_poll, pstate_label, sample, scan,
    slowdown_limit_c, slowdown_threshold_c, snapshot, throttle_label, FieldValue, NouveauDevice,
    NouveauReads, NvmlDevice, NvmlReads, UsedMemory, UtilSample,
};
use gpur::backend::raw::{Figure, RawSnapshot};
use gpur::backend::ProcKind;
use gpur::order::Real;
use nvml_wrapper::bitmasks::device::ThrottleReasons;
use nvml_wrapper::enum_wrappers::device::PerformanceState;

fn card(out: &mut Vec<CardEntry>, idx: u32, bdf: &str, vendor: &str, driver: &str) {
    for name in [
        format!("card{idx}"),
        format!("renderD{}", 128 + idx),
        format!("card{idx}-DP-1"),
    ] {
        out.push(CardEntry {
            file_name: name,
            vendor: Some(vendor.to_string()),
            driver: (!driver.is_empty()).then_some(driver.to_string()),
            pdev: Some(bdf.to_string()),
        });
    }
}

fn tri_vendor() -> Vec<CardEntry> {
    let mut v = Vec::new();
    card(&mut v, 0, "0000:00:02.0", "0x8086", "i915");
    card(&mut v, 1, "0000:03:00.0", "0x1002", "amdgpu");
    card(&mut v, 3, "0000:04:00.0", "0x10de", "nouveau");
    card(&mut v, 2, "0000:01:00.0", "0x10de", "nvidia");
    card(&mut v, 8, "0000:09:00.0", "0x10de", "");
    v
}

fn device(c: &CardEntry) -> NouveauDevice {
    NouveauDevice {
        name: "NVIDIA GPU".to_string(),
        pdev: c.pdev.clone(),
        driver: c.driver.clone().unwrap(),
        pcie_max_gen: None,
        pcie_max_width: None,
    }
}

/// A reading of a card none of whose files exist.
fn sample_of(c: &CardEntry) -> RawSnapshot {
    let reads = NouveauReads {
        temp: None,
        power_input: None,
        power_max: None,
        pwm: None,
        pwm_max: None,
        fan_input: None,
        voltage: None,
        link: LinkTexts {
            current_speed: None,
            current_width: None,
            max_speed: None,
            max_width: None,
        },
    };
    sample(&device(c), &reads)
}

fn pdevs(cards: &Vec<CardEntry>, include_nvidia: bool) -> Vec<Option<&str>> {
    scan(cards, include_nvidia)
        .iter()
        .map(|c| cards[c.at].pdev.as_deref())
        .collect()
}

#[test]
fn scan_claims_nouveau_cards_only() {
    let cards = tri_vendor();
    assert_eq!(
        pdevs(&cards, false),
        [Some("0000:04:00.0")],
        "the proprietary driver's card is NVML's"
    );
}

#[test]
fn the_nvml_absent_scan_claims_proprietary_cards() {
    let cards = tri_vendor();
    assert_eq!(
        pdevs(&cards, true),
        [Some("0000:01:00.0"), Some("0000:04:00.0")]
    );
    let found = scan(&cards, true);
    assert_eq!(cards[found[0].at].driver.as_deref(), Some("nvidia"));
    assert_eq!(cards[found[1].at].driver.as_deref(), Some("nouveau"));
    let s = sample_of(&cards[found[0].at]);
    assert_eq!(s.device_id.as_deref(), Some("pci:0000:01:00.0"));
    assert!(s.utilization_pct.is_none());
    assert!(s.vram_total_bytes.is_none());
    assert!(!s.integrated);
}

#[test]
fn missing_sysfs_reads_as_unknown_not_zero() {
    let cards = tri_vendor();
    let found = scan(&cards, false);
    let s = sample_of(&cards[found[0].at]);
    assert_eq!(s.device_id.as_deref(), Some("pci:0000:04:00.0"));
    assert!(!s.integrated);
    for v in [s.utilization_pct, s.temperature_c, s.power_w, s.fan_pct] {
        assert!(v.is_none());
    }
    assert!(s.vram_total_bytes.is_none() && s.clock_mhz.is_none());
}

fn util(pid: u32, timestamp: u64, sm_util: u32) -> UtilSample {
    UtilSample {
        pid,
        timestamp,
        sm_util,
    }
}

#[test]
fn fold_util_keeps_the_newest_sample_per_pid() {
    let samples = vec![
        util(7, 300, 11),
        util(7, 500, 42),
        util(7, 100, 99),
        util(9, 400, 5),
    ];
    let (per_pid, newest) = fold_util(&samples, 0);
    assert_eq!(per_pid.get(&7), Some(&42));
    assert_eq!(per_pid.get(&9), Some(&5));
    assert_eq!(newest, 500);
}

#[test]
fn fold_util_clamps_out_of_range_sm_util() {
    let (per_pid, _) = fold_util(&vec![util(1, 10, 250)], 0);
    assert_eq!(per_pid.get(&1), Some(&100));
}

#[test]
fn fold_util_never_lowers_the_watermark() {
    let (per_pid, newest) = fold_util(&Vec::new(), 900);
    assert!(per_pid.is_empty());
    assert_eq!(newest, 900);
    let (_, newest) = fold_util(&vec![util(1, 10, 1)], 900);
    assert_eq!(newest, 900);
}

#[test]
fn per_device_watermarks_are_independent() {
    let mut watermarks = [0_u64; 2];
    let (_, newest) = fold_util(&vec![util(1, 5_000, 30)], watermarks[0]);
    watermarks[0] = newest;
    assert_eq!(watermarks[0], 5_000);
    assert_eq!(watermarks[1], 0);
    let (per_pid, _) = fold_util(&vec![util(2, 4_000, 60)], watermarks[1]);
    assert_eq!(per_pid.get(&2), Some(&60));
}

fn degrees(v: FieldValue) -> Option<f64> {
    field_temp_c(v).map(|f| match f {
        Figure::Whole(n) => n as f64,
        Figure::Measured(r) => f64::from_bits(r.bits),
        _ => panic!("not a temperature"),
    })
}

#[test]
fn field_temp_widens_every_nvml_value_type() {
    assert_eq!(degrees(FieldValue::Unsigned(84)), Some(84.0));
    assert_eq!(degrees(FieldValue::Signed(84)), Some(84.0));
    let real = FieldValue::Real(Real {
        bits: 84.5_f64.to_bits(),
    });
    assert_eq!(degrees(real), Some(84.5));
}

#[test]
fn field_temp_rejects_the_no_reading_sentinel() {
    assert_eq!(degrees(FieldValue::Unsigned(0)), None);
    assert_eq!(degrees(FieldValue::Signed(-40)), None);
    for none in [0.0_f64, -0.0, -40.0, f64::NAN] {
        let v = FieldValue::Real(Real {
            bits: none.to_bits(),
        });
        assert_eq!(degrees(v), None);
    }
}

#[test]
fn pstate_labels_cover_the_whole_range() {
    let states = [
        PerformanceState::Zero,
        PerformanceState::One,
        PerformanceState::Two,
        PerformanceState::Three,
        PerformanceState::Four,
        PerformanceState::Five,
        PerformanceState::Six,
        PerformanceState::Seven,
        PerformanceState::Eight,
        PerformanceState::Nine,
        PerformanceState::Ten,
        PerformanceState::Eleven,
        PerformanceState::Twelve,
        PerformanceState::Thirteen,
        PerformanceState::Fourteen,
        PerformanceState::Fifteen,
    ];
    for (n, state) in states.into_iter().enumerate() {
        assert_eq!(pstate_label(state.as_c()), Some(format!("P{n}")));
    }
    assert_eq!(pstate_label(PerformanceState::Unknown.as_c()), None);
}

#[test]
fn unavailable_process_memory_is_unknown_not_zero() {
    assert_eq!(mem_bytes(&UsedMemory::Unavailable), None);
    assert_ne!(mem_bytes(&UsedMemory::Unavailable), Some(0));
}

#[test]
fn reported_process_memory_passes_through() {
    assert_eq!(mem_bytes(&UsedMemory::Used(0)), Some(0));
    assert_eq!(mem_bytes(&UsedMemory::Used(2 << 30)), Some(2_147_483_648));
}

#[test]
fn pcie_throughput_converts_decimal_kb_to_kib() {
    assert_eq!(kb_to_kib(0), 0);
    assert_eq!(kb_to_kib(1024), 1000);
    assert_eq!(kb_to_kib(1000), 976);
    assert_eq!(kb_to_kib(u32::MAX), u64::from(u32::MAX) * 1000 / 1024);
}

#[test]
fn throttle_masks_become_words() {
    let label = |r: ThrottleReasons| throttle_label(r.bits());
    assert_eq!(label(ThrottleReasons::GPU_IDLE), None);
    assert_eq!(label(ThrottleReasons::NONE), None);
    assert_eq!(
        label(ThrottleReasons::SW_THERMAL_SLOWDOWN).as_deref(),
        Some("thermal")
    );
    assert_eq!(
        label(ThrottleReasons::HW_THERMAL_SLOWDOWN | ThrottleReasons::HW_SLOWDOWN).as_deref(),
        Some("thermal+hw-slowdown")
    );
    assert_eq!(
        label(ThrottleReasons::SW_POWER_CAP | ThrottleReasons::HW_POWER_BRAKE_SLOWDOWN).as_deref(),
        Some("power-limit")
    );
    assert_eq!(
        throttle_label(u64::MAX).as_deref(),
        Some("thermal+power-limit+hw-slowdown")
    );
}

#[test]
fn graphics_rows_win_over_compute_rows() {
    let compute = vec![(7, UsedMemory::Used(10)), (8, UsedMemory::Unavailable)];
    let graphics = vec![(7, UsedMemory::Used(20))];
    let (util, _) = fold_util(&vec![util(7, 1, 55)], 0);
    let mut rows = merge_processes(&compute, &graphics, &util, 3);
    rows.sort_by_key(|r| r.pid);
    assert_eq!(rows.len(), 2);
    assert_eq!((rows[0].pid, rows[0].kind), (7, ProcKind::Graphics));
    assert_eq!(rows[0].gpu_mem_bytes, Some(20));
    assert!(matches!(rows[0].gpu_util_pct, Some(Figure::Whole(55))));
    assert_eq!((rows[1].pid, rows[1].kind), (8, ProcKind::Compute));
    assert_eq!(rows[1].gpu_mem_bytes, None);
    assert!(rows.iter().all(|r| r.gpu_index == 3));
}

#[test]
fn a_device_off_the_bus_keeps_its_place() {
    let d = NvmlDevice {
        uuid: Some("GPU-1".to_string()),
        name: Some("RTX".to_string()),
        integrated: None,
        pcie_max_gen: None,
        pcie_max_width: None,
        slowdown_c: Some(93),
    };
    let s = snapshot(2, &d, &None);
    assert_eq!(s.name, "NVIDIA GPU 2 (unavailable)");
    assert_eq!(s.device_id.as_deref(), Some("GPU-1"));
    assert!(s.utilization_pct.is_none());
    assert!(s.temp_slowdown_c.is_none());
}

fn unanswered() -> NvmlReads {
    NvmlReads {
        name: None,
        on_soc: None,
        gpu_util: None,
        mem_util: None,
        enc_util: None,
        dec_util: None,
        throttle_bits: None,
        mem_used: None,
        mem_total: None,
        temp: None,
        slowdown: None,
        mem_temp: None,
        power_mw: None,
        power_limit_mw: None,
        fan_pct: vec![None],
        fan_rpm: vec![None],
        clock: None,
        mem_clock: None,
        pcie_gen: None,
        pcie_width: None,
        pcie_max_gen: None,
        pcie_max_width: None,
        pcie_rx_kb: None,
        pcie_tx_kb: None,
        pstate: None,
    }
}

#[test]
fn what_is_known_stays_and_what_was_refused_is_asked_again() {
    let known = NvmlDevice {
        uuid: None,
        name: Some("RTX".to_string()),
        integrated: Some(true),
        pcie_max_gen: Some(4),
        pcie_max_width: Some(16),
        slowdown_c: Some(93),
    };
    let refused = NvmlDevice {
        uuid: None,
        name: None,
        integrated: None,
        pcie_max_gen: None,
        pcie_max_width: None,
        slowdown_c: None,
    };
    let answers = |slowdown| {
        Some(NvmlReads {
            name: Some("again".to_string()),
            on_soc: Some(false),
            slowdown,
            pcie_max_gen: Some(3),
            pcie_max_width: Some(8),
            ..unanswered()
        })
    };
    for reads in [Some(unanswered()), answers(Some(88))] {
        let s = snapshot(0, &known, &reads);
        assert_eq!((s.name.as_str(), s.integrated), ("RTX", true));
        assert_eq!((s.pcie_max_gen, s.pcie_max_width), (Some(4), Some(16)));
        assert!(matches!(s.temp_slowdown_c, Some(Figure::Whole(93))));
    }
    let s = snapshot(0, &refused, &answers(Some(88)));
    assert_eq!((s.name.as_str(), s.integrated), ("again", false));
    assert_eq!((s.pcie_max_gen, s.pcie_max_width), (Some(3), Some(8)));
    assert!(matches!(s.temp_slowdown_c, Some(Figure::Whole(88))));
    for none in [None, Some(0), Some(201), Some(u32::MAX)] {
        assert!(snapshot(0, &refused, &answers(none)).temp_slowdown_c.is_none());
    }
    let s = snapshot(5, &refused, &Some(unanswered()));
    assert_eq!((s.name.as_str(), s.integrated), ("NVIDIA GPU 5", false));
}

#[test]
fn fans_and_thresholds_are_taken_with_care() {
    assert_eq!(fans_to_ask(None), 1);
    assert_eq!(fans_to_ask(Some(0)), 1);
    assert_eq!(fans_to_ask(Some(3)), 3);
    assert_eq!(highest(&vec![Some(30), None, Some(55)]), Some(55));
    assert_eq!(highest(&vec![None, None]), None);
    assert_eq!(slowdown_threshold_c(Some(93)), Some(93));
    for bogus in [0, 201, u32::MAX] {
        assert_eq!(slowdown_threshold_c(Some(bogus)), None);
        assert_eq!(slowdown_limit_c(None, Some(bogus)), None);
        assert_eq!(slowdown_limit_c(Some(93), Some(bogus)), Some(93));
    }
    assert_eq!(slowdown_limit_c(None, Some(88)), Some(88));
    assert_eq!(slowdown_limit_c(Some(93), Some(88)), Some(93));
    assert_eq!(slowdown_limit_c(None, None), None);
}

#[test]
fn both_sides_are_one_list_and_one_line() {
    let snap = |n: &str| RawSnapshot::nothing(n.to_string(), None);
    let all = merged_poll(Ok(vec![snap("a")]), Ok(vec![snap("b")])).unwrap();
    assert_eq!(all.iter().map(|s| s.name.as_str()).collect::<Vec<_>>(), ["a", "b"]);
    let err = merged_poll(Err("nvml".to_string()), Err("nouveau".to_string())).unwrap_err();
    assert_eq!(err, "nvml");
    assert!(merged_poll(Ok(vec![]), Err("nouveau".to_string())).is_err());
    let line = driver_line(&Some("550.1".to_string()));
    assert_eq!(line.as_deref(), Some("driver 550.1"));
    assert_eq!(
        merged_driver_info(line, Some("nouveau · kernel 6".to_string())).as_deref(),
        Some("driver 550.1 · nouveau · kernel 6")
    );
    assert_eq!(merged_driver_info(None, None), None);
}
