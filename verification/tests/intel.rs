use gpur::backend::intel::{
    attributed_sum, card_memory, gt_cur_freq_mhz, power_step, scan, snapshot, split_memory,
    vram_total, IntelBackend, IntelDevice, IntelEntry, IntelReads, PowerReading,
};
use gpur::backend::linux::fdinfo::{parse_fdinfo, FdClient};
use gpur::backend::linux::scanner::{ProcScanner, SweepCursor};
use gpur::backend::linux::sweep::{build_proc, collect};
use gpur::backend::linux::sysfs::{CardEntry, LinkTexts};
use gpur::backend::raw::{Figure, RawSnapshot};
use gpur::keyed::KeyedMap;

fn card(out: &mut Vec<CardEntry>, idx: u32, bdf: &str, vendor: &str, driver: &str) {
    for name in [
        format!("card{idx}"),
        format!("renderD{}", 128 + idx),
        format!("card{idx}-DP-1"),
    ] {
        out.push(CardEntry {
            file_name: name,
            vendor: Some(vendor.to_string()),
            driver: (!driver.is_empty()).then_some(driver.to_string()),
            pdev: Some(bdf.to_string()),
        });
    }
}

fn tri_vendor() -> Vec<CardEntry> {
    let mut v = Vec::new();
    card(&mut v, 5, "0000:06:00.0", "0x8086", "xe");
    card(&mut v, 0, "0000:00:02.0", "0x8086", "i915");
    card(&mut v, 1, "0000:03:00.0", "0x1002", "amdgpu");
    card(&mut v, 2, "0000:01:00.0", "0x10de", "nvidia");
    card(&mut v, 7, "0000:08:00.0", "0x8086", "");
    v
}

fn devices() -> Vec<IntelDevice> {
    let cards = tri_vendor();
    scan(&cards)
        .iter()
        .map(|c| IntelDevice {
            name: format!("Intel GPU (card{})", c.index),
            pdev: cards[c.at].pdev.clone(),
            driver: cards[c.at].driver.clone().unwrap(),
            vram_total: None,
            discrete: false,
            pcie_max_gen: None,
            pcie_max_width: None,
        })
        .collect()
}

/// One i915 client of the card at 00:02.0.
fn client(render_ns: u64, video_ns: u64) -> FdClient {
    parse_fdinfo(&format!(
        "drm-driver:\ti915\n\
         drm-client-id:\t7\n\
         drm-pdev:\t0000:00:02.0\n\
         drm-engine-render:\t{render_ns} ns\n\
         drm-engine-video:\t{video_ns} ns\n\
         drm-resident-system0:\t1048576\n"
    ))
    .unwrap()
}

fn pct(f: &Option<Figure>) -> Option<f64> {
    f.as_ref().map(|f| match f {
        Figure::Shares(v) => v.iter().map(|r| r.num as f64 / r.den as f64 * 100.0).sum(),
        _ => panic!("not a sum of shares"),
    })
}

struct Polling {
    core: IntelBackend,
    cursor: SweepCursor,
    entries: Vec<IntelEntry>,
}

impl Polling {
    fn poll(&mut self, scanner: &ProcScanner) -> Vec<RawSnapshot> {
        if let Some(walk) = self.cursor.next(scanner.latest()) {
            self.entries = self.core.attribute(walk);
        }
        let reads = IntelReads {
            temp: None,
            power_max: None,
            freq_card: None,
            freq_tile: None,
            freq_rps: None,
            link: LinkTexts {
                current_speed: None,
                current_width: None,
                max_speed: None,
                max_width: None,
            },
        };
        (0..self.core.devices.len())
            .map(|i| {
                let mem = card_memory(&self.entries, i).expect("sums fit");
                snapshot(
                    &self.core.devices[i],
                    &reads,
                    PowerReading::Unknown,
                    &self.entries,
                    i,
                    mem,
                    Some(1 << 34),
                )
            })
            .collect()
    }
    fn row_pcts(&self) -> Vec<Option<f64>> {
        let entries = self.entries.iter().map(|e| e.entry).collect();
        collect(&entries)
            .into_iter()
            .map(|s| pct(&build_proc(s).gpu_util_pct))
            .collect()
    }
}

#[test]
fn intel_utilization_spans_the_two_walks_and_survives_a_poll_without_one() {
    let mut scanner = ProcScanner::detached();
    let mut b = Polling {
        core: IntelBackend {
            devices: devices(),
            i915_state: KeyedMap::new(),
            xe_state: KeyedMap::new(),
        },
        cursor: SweepCursor::on(),
        entries: Vec::new(),
    };
    let card = 0;

    scanner.publish(vec![(10, client(0, 0))], 1_000);
    let gpus = b.poll(&scanner);
    assert_eq!(
        pct(&gpus[card].utilization_pct),
        Some(0.0),
        "a first reading has no interval to divide by"
    );

    scanner.publish(
        vec![(10, client(400_000_000, 100_000_000))],
        1_000 + 1_000_000_000,
    );
    let gpus = b.poll(&scanner);
    assert_eq!(pct(&gpus[card].utilization_pct), Some(50.0));
    assert_eq!(pct(&gpus[card].video_util_pct), Some(10.0));
    assert_eq!(gpus[card].gtt_used_bytes, Some(1 << 20));
    assert_eq!(b.row_pcts(), [Some(50.0)]);

    let gpus = b.poll(&scanner);
    assert_eq!(pct(&gpus[card].utilization_pct), Some(50.0));
    assert_eq!(pct(&gpus[card].video_util_pct), Some(10.0));
    assert_eq!(gpus[card].gtt_used_bytes, Some(1 << 20));
    assert_eq!(b.row_pcts().len(), 1);
    assert_eq!(
        pct(&gpus[1].utilization_pct),
        None,
        "no client on the xe card"
    );
}

#[test]
fn scan_claims_intel_driven_cards_only() {
    let devices = devices();
    assert_eq!(
        devices
            .iter()
            .map(|d| (d.pdev.as_deref(), d.driver.as_str()))
            .collect::<Vec<_>>(),
        [(Some("0000:00:02.0"), "i915"), (Some("0000:06:00.0"), "xe")],
        "card index order; nothing from another vendor, and not card7"
    );
    let cards = tri_vendor();
    assert_eq!(cards[scan(&cards)[0].at].file_name, "card0");
}

const I915_IGPU_FDINFO: &str = "\
drm-driver:\ti915
drm-client-id:\t3
drm-pdev:\t0000:00:02.0
drm-engine-render:\t123456789 ns
drm-resident-system0:\t81920 KiB
drm-resident-stolen-system0:\t1048576
";

const I915_DGPU_FDINFO: &str = "\
drm-driver:\ti915
drm-client-id:\t11
drm-pdev:\t0000:03:00.0
drm-engine-render:\t500 ns
drm-resident-local0:\t512 MiB
drm-resident-stolen-local0:\t8 MiB
drm-resident-system0:\t2048 KiB
";

const XE_IGPU_FDINFO: &str = "\
drm-driver:\txe
drm-client-id:\t9
drm-pdev:\t0000:00:02.0
drm-cycles-rcs:\t10
drm-total-cycles-rcs:\t1000
drm-resident-system:\t4096 KiB
drm-resident-gtt:\t2 MiB
drm-resident-stolen:\t65536
";

const XE_DGPU_FDINFO: &str = "\
drm-driver:\txe
drm-client-id:\t4
drm-pdev:\t0000:03:00.0
drm-resident-vram0:\t1024 MiB
drm-resident-stolen:\t8 MiB
drm-resident-gtt:\t1024 KiB
";

#[test]
fn idle_attributed_clients_still_measure_zero() {
    assert_eq!(attributed_sum(true, Some(0.0)), Some(0.0));
    assert_eq!(attributed_sum(true, Some(0u64)), Some(0));
    assert_eq!(attributed_sum(true, None::<f64>), Some(0.0));
    assert_eq!(attributed_sum(true, Some(37.5)), Some(37.5));
}

#[test]
fn a_device_with_no_attributed_clients_is_unknown() {
    assert_eq!(attributed_sum(false, None::<f64>), None);
    assert_eq!(attributed_sum(false, None::<u64>), None);
    assert_eq!(attributed_sum(false, Some(0u64)), None);
    assert_eq!(attributed_sum(false, Some(90.0)), None);
}

#[test]
fn xe_reports_physical_vram_per_tile() {
    assert_eq!(vram_total(&vec![12_884_901_888], None), Some(12 << 30));
    assert_eq!(
        vram_total(&vec![12_884_901_888, 12_884_901_888], None),
        Some(24 << 30)
    );
}

#[test]
fn dkms_i915_lmem_total_lives_on_the_card_dir() {
    assert_eq!(vram_total(&vec![], None), None);
    assert_eq!(vram_total(&vec![], Some(17_179_869_184)), Some(16 << 30));
}

#[test]
fn mainline_i915_has_no_vram_total() {
    assert_eq!(vram_total(&vec![], None), None);
}

#[test]
fn igpu_memory_lands_in_the_system_bucket() {
    let c = parse_fdinfo(I915_IGPU_FDINFO).unwrap();
    let m = split_memory(&c, false);
    assert_eq!(m.local, 0);
    assert_eq!(m.system, (80 << 20) + (1 << 20));
    assert!(!m.saw_local, "an iGPU never names a local region");

    let c = parse_fdinfo(XE_IGPU_FDINFO).unwrap();
    let m = split_memory(&c, false);
    assert_eq!(m.local, 0);
    assert_eq!(m.system, (4 << 20) + (2 << 20) + 65_536);
    assert!(!m.saw_local);
}

#[test]
fn dgpu_memory_splits_local_from_system() {
    let c = parse_fdinfo(I915_DGPU_FDINFO).unwrap();
    let m = split_memory(&c, true);
    assert_eq!(m.local, (512 << 20) + (8 << 20));
    assert_eq!(m.system, 2 << 20);
    assert!(m.saw_local, "local residency is what proves a dGPU");

    let c = parse_fdinfo(XE_DGPU_FDINFO).unwrap();
    let m = split_memory(&c, true);
    assert_eq!(m.local, (1024 << 20) + (8 << 20));
    assert_eq!(m.system, 1 << 20);
    assert!(m.saw_local);
}

fn watts(r: PowerReading) -> Option<f64> {
    match r {
        PowerReading::Energy { uj, ns } => Some(uj as f64 / 1e6 / (ns as f64 / 1e9)),
        PowerReading::Instant(uw) => Some(uw as f64 / 1e6),
        PowerReading::Unknown => None,
    }
}

#[test]
fn an_unreadable_energy_counter_drops_the_power_baseline() {
    const SECOND: u64 = 1_000_000_000;
    let mut state = None;

    assert_eq!(watts(power_step(&mut state, Some(1_000_000), None, 5)), None);

    let w = watts(power_step(&mut state, Some(1_500_000), None, 5 + SECOND)).unwrap();
    assert!((w - 0.5).abs() < 1e-9, "expected 0.5 W, got {w}");

    let w = watts(power_step(&mut state, None, Some(3_000_000), 5 + 2 * SECOND)).unwrap();
    assert!((w - 3.0).abs() < 1e-9, "expected the 3 W fallback, got {w}");

    let again = power_step(&mut state, Some(2_000_000), Some(3_000_000), 5 + 3 * SECOND);
    assert_eq!(watts(again), None);

    let w = watts(power_step(&mut state, Some(2_500_000), None, 5 + 4 * SECOND)).unwrap();
    assert!((w - 0.5).abs() < 1e-9, "expected 0.5 W, got {w}");
}

#[test]
fn the_first_known_clock_is_the_clock() {
    assert_eq!(gt_cur_freq_mhz(Some(1), Some(2), Some(3)), Some(1));
    assert_eq!(gt_cur_freq_mhz(None, Some(2), Some(3)), Some(2));
    assert_eq!(gt_cur_freq_mhz(None, None, Some(3)), Some(3));
    assert_eq!(gt_cur_freq_mhz(None, None, None), None);
}
