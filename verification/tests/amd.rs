use gpur::backend::amd::{
    client_mem_bytes, clock_mhz, dpm_active_mhz, is_apu, is_dec_engine, is_enc_engine,
    is_video_engine, media_on, parse_pcie_bw, pcie_bw_step, sample, scan, throttle_label,
    AmdBackend, AmdDevice, AmdEntry, AmdReads, BwDelta, MediaFigures,
};
use gpur::backend::linux::fdinfo::{parse_fdinfo, FdClient};
use gpur::backend::linux::scanner::{ProcScanner, SweepCursor};
use gpur::backend::linux::sweep::{build_proc, client_device, collect, SweepDevice};
use gpur::backend::linux::sysfs::{read_u64, CardEntry, LinkTexts};
use gpur::backend::raw::{Figure, RawProcess};
use gpur::backend::ProcKind;
use gpur::keyed::KeyedMap;

fn card(out: &mut Vec<CardEntry>, idx: u32, bdf: &str, vendor: &str, driver: &str) {
    for name in [
        format!("card{idx}"),
        format!("renderD{}", 128 + idx),
        format!("card{idx}-DP-1"),
    ] {
        out.push(CardEntry {
            file_name: name,
            vendor: Some(vendor.to_string()),
            driver: (!driver.is_empty()).then_some(driver.to_string()),
            pdev: Some(bdf.to_string()),
        });
    }
}

fn tri_vendor() -> Vec<CardEntry> {
    let mut v = Vec::new();
    card(&mut v, 4, "0000:05:00.0", "0x1002", "radeon");
    card(&mut v, 0, "0000:00:02.0", "0x8086", "i915");
    card(&mut v, 1, "0000:03:00.0", "0x1002", "amdgpu");
    card(&mut v, 2, "0000:01:00.0", "0x10de", "nvidia");
    card(&mut v, 3, "0000:04:00.0", "0x10de", "nouveau");
    card(&mut v, 6, "0000:07:00.0", "0x1002", "");
    v
}

fn devices() -> Vec<AmdDevice> {
    let cards = tri_vendor();
    scan(&cards)
        .iter()
        .map(|c| AmdDevice {
            name: format!("AMD GPU (card{})", c.index),
            pdev: cards[c.at].pdev.clone(),
            driver: cards[c.at].driver.clone().unwrap(),
            integrated: false,
            pcie_max_gen: None,
            pcie_max_width: None,
        })
        .collect()
}

#[test]
fn scan_claims_amd_driven_cards_only() {
    let devices = devices();
    assert_eq!(
        devices
            .iter()
            .map(|d| (d.pdev.as_deref(), d.driver.as_str()))
            .collect::<Vec<_>>(),
        [
            (Some("0000:03:00.0"), "amdgpu"),
            (Some("0000:05:00.0"), "radeon"),
        ],
        "card6 is unbound, and the 0x10de/0x8086 cards are not ours"
    );
    assert_ne!(devices[0].name, devices[1].name);
}

#[test]
fn sweep_devices_carry_each_card_own_driver() {
    let sweep: Vec<SweepDevice> = devices()
        .iter()
        .map(|d| SweepDevice {
            pdev: d.pdev.clone(),
            driver: d.driver.clone(),
        })
        .collect();
    let client =
        parse_fdinfo("drm-driver:\tamdgpu\ndrm-client-id:\t1\ndrm-pdev:\t0000:05:00.0\n").unwrap();
    assert_eq!(
        client_device(&sweep, &client),
        None,
        "the card at 05:00.0 runs radeon; an amdgpu client is not its"
    );
}

/// One amdgpu client of the card at 03:00.0.
fn client(gfx_ns: u64, dec_ns: u64) -> FdClient {
    parse_fdinfo(&format!(
        "drm-driver:\tamdgpu\n\
         drm-client-id:\t7\n\
         drm-pdev:\t0000:03:00.0\n\
         drm-engine-gfx:\t{gfx_ns} ns\n\
         drm-engine-dec:\t{dec_ns} ns\n"
    ))
    .unwrap()
}

/// A sum of shares in percent.
fn pct(f: &Option<Figure>) -> Option<f64> {
    f.as_ref().map(|f| match f {
        Figure::Shares(v) => v.iter().map(|r| r.num as f64 / r.den as f64 * 100.0).sum(),
        _ => panic!("not a sum of shares"),
    })
}

/// The backend between polls: what it attributed last stays until a newer walk.
struct Polling {
    core: AmdBackend,
    cursor: SweepCursor,
    entries: Vec<AmdEntry>,
}

impl Polling {
    fn poll(&mut self, scanner: &ProcScanner) {
        if let Some(walk) = self.cursor.next(scanner.latest()) {
            self.entries = self.core.attribute(walk);
        }
    }
    fn rows(&self) -> Vec<RawProcess> {
        let entries = self.entries.iter().map(|e| e.entry).collect();
        collect(&entries).into_iter().map(build_proc).collect()
    }
}

#[test]
fn amd_utilization_spans_the_two_walks_and_survives_a_poll_without_one() {
    let mut scanner = ProcScanner::detached();
    let mut b = Polling {
        core: AmdBackend {
            devices: devices(),
            engine_state: KeyedMap::new(),
        },
        cursor: SweepCursor::on(),
        entries: Vec::new(),
    };
    let card = 0;

    scanner.publish(vec![(10, client(0, 0))], 1_000);
    b.poll(&scanner);
    assert_eq!(
        pct(&b.rows()[0].gpu_util_pct),
        Some(0.0),
        "a first reading has no interval to divide by"
    );
    assert_eq!(pct(&media_on(&b.entries, card).video), Some(0.0));

    scanner.publish(
        vec![(10, client(500_000_000, 250_000_000))],
        1_000 + 1_000_000_000,
    );
    b.poll(&scanner);
    let row = |b: &Polling| {
        let p = b.rows();
        assert_eq!(p.len(), 1, "one client, one row");
        (p[0].pid, p[0].gpu_index, pct(&p[0].gpu_util_pct), p[0].kind)
    };
    assert_eq!(row(&b), (10, card, Some(75.0), ProcKind::Graphics));
    let media = media_on(&b.entries, card);
    assert_eq!(pct(&media.video), Some(25.0));
    assert_eq!(pct(&media.dec), Some(25.0));
    assert_eq!(pct(&media.enc), None, "no encoder was ever named");

    b.poll(&scanner);
    assert_eq!(row(&b), (10, card, Some(75.0), ProcKind::Graphics));
    let media = media_on(&b.entries, card);
    assert_eq!(pct(&media.video), Some(25.0));
    assert_eq!(pct(&media.dec), Some(25.0));
}

#[test]
fn power_gated_clock_falls_through_to_the_dpm_table() {
    let dpm = Some("0: 500Mhz\n1: 1500Mhz *\n2: 2371Mhz\n".to_string());
    let hz = |s: &str| read_u64(&Some(s.to_string()));

    assert_eq!(clock_mhz(hz("3022000000\n"), &dpm), Some(3022));
    assert_eq!(clock_mhz(hz("0\n"), &dpm), Some(1500));
    assert_eq!(clock_mhz(None, &dpm), Some(1500));
    let idle = Some("S: 0Mhz *\n".to_string());
    assert_eq!(clock_mhz(hz("0\n"), &idle), Some(0));
    assert_eq!(clock_mhz(None, &None), None);
}

#[test]
fn pcie_bw_line_parses() {
    assert_eq!(parse_pcie_bw("1234 5678 512\n"), Some((1234, 5678, 512)));
    assert_eq!(parse_pcie_bw("0 0 256"), Some((0, 0, 256)));
    assert_eq!(parse_pcie_bw("1234 5678"), None);
    assert_eq!(parse_pcie_bw(""), None);
    assert_eq!(parse_pcie_bw("a b c"), None);
}

/// Two samples' rates in KiB/s.
fn kbs(d: BwDelta) -> (u64, u64) {
    let rate = |packets: u64| {
        (packets as f64 * d.mps as f64 / 1024.0 / (d.elapsed_ns as f64 / 1e9)) as u64
    };
    (rate(d.rx), rate(d.tx))
}

/// The rates between two samples a given time apart.
fn between(was: (u64, u64), is: (u64, u64), ns: u64) -> Option<(u64, u64)> {
    let mut prev = Some((was.0, was.1, 1_000));
    let text = Some(format!("{} {} 512\n", is.0, is.1));
    pcie_bw_step(&mut prev, &text, 1_000 + ns).map(kbs)
}

#[test]
fn pcie_bw_delta_is_packets_times_packet_size() {
    const SECOND: u64 = 1_000_000_000;
    assert_eq!(between((0, 0), (1024, 2048), SECOND), Some((512, 1024)));
    assert_eq!(between((0, 0), (1024, 0), SECOND / 2), Some((1024, 0)));
    assert_eq!(between((5000, 5000), (10, 10), SECOND), Some((0, 0)));
    assert_eq!(between((0, 0), (10, 10), 0), None);
}

#[test]
fn pcie_bw_absent_file_stays_none() {
    let t0 = 5_000;
    let t1 = t0 + 1_000_000_000;
    let mut prev = None;

    assert_eq!(pcie_bw_step(&mut prev, &None, t0), None);
    assert!(prev.is_none());

    let text = |s: &str| Some(s.to_string());
    assert_eq!(pcie_bw_step(&mut prev, &text("100 200 512\n"), t0), None);
    assert!(prev.is_some());
    assert_eq!(
        pcie_bw_step(&mut prev, &text("1124 2200 512\n"), t1).map(kbs),
        Some((512, 1000))
    );
}

const APU_FDINFO: &str = "\
drm-driver:\tamdgpu
drm-client-id:\t56692
drm-pdev:\t0000:75:00.0
drm-memory-vram:\t60060 KiB
drm-memory-gtt: \t21664 KiB
drm-engine-compute:\t1701383665 ns
drm-engine-enc:\t9770559248 ns
";

#[test]
fn apu_client_memory_includes_gtt() {
    let c = parse_fdinfo(APU_FDINFO).unwrap();
    assert_eq!(client_mem_bytes(&c, false), 60060 << 10);
    assert_eq!(client_mem_bytes(&c, true), (60060 + 21664) << 10);
}

#[test]
fn media_engines_split_into_enc_and_dec() {
    assert!(is_enc_engine("enc") && !is_dec_engine("enc"));
    assert!(is_dec_engine("dec") && !is_enc_engine("dec"));
    assert!(is_dec_engine("jpeg"));
    for unified in ["vcn", "vpe"] {
        assert!(is_video_engine(unified));
        assert!(!is_enc_engine(unified) && !is_dec_engine(unified));
    }
    for name in ["enc", "dec", "jpeg"] {
        assert!(is_video_engine(name));
    }
    for other in ["gfx", "compute", "dma"] {
        assert!(!is_video_engine(other));
    }
}

#[test]
fn dpm_table_active_level_parses() {
    let table = |s: &str| dpm_active_mhz(&Some(s.to_string()));
    assert_eq!(table("0: 96Mhz\n1: 3000Mhz *\n2: 1249Mhz\n"), Some(3000));
    assert_eq!(table("S: 0Mhz *\n"), Some(0));
}

fn nothing_to_read() -> AmdReads {
    AmdReads {
        gpu_busy_percent: None,
        mem_busy_percent: None,
        mem_info_vram_used: None,
        mem_info_vram_total: None,
        mem_info_gtt_used: None,
        mem_info_gtt_total: None,
        pp_dpm_sclk: None,
        pp_dpm_mclk: None,
        performance_level: None,
        temp_edge: None,
        temp_junction: None,
        temp_mem: None,
        power_average: None,
        power_input: None,
        power_cap: None,
        power_cap_default: None,
        pwm: None,
        pwm_max: None,
        fan_input: None,
        freq_core: None,
        freq_mem: None,
        voltage: None,
        link: LinkTexts {
            current_speed: None,
            current_width: None,
            max_speed: None,
            max_width: None,
        },
    }
}

#[test]
fn a_card_without_files_reads_as_unknown() {
    let d = &devices()[0];
    let none = MediaFigures {
        video: None,
        enc: None,
        dec: None,
    };
    let s = sample(d, &nothing_to_read(), none, None, false, false);
    assert_eq!(s.device_id.as_deref(), Some("pci:0000:03:00.0"));
    for v in [s.utilization_pct, s.temperature_c, s.power_w, s.fan_pct] {
        assert!(v.is_none());
    }
    assert_eq!((s.vram_used_bytes, s.clock_mhz), (None, None));
    assert_eq!(s.throttle, None);
}

#[test]
fn a_cards_files_become_its_reading() {
    let text = |s: &str| Some(s.to_string());
    let reads = AmdReads {
        gpu_busy_percent: text("101\n"),
        temp_edge: text("45500\n"),
        power_input: text("15000000\n"),
        power_cap: text("0\n"),
        power_cap_default: text("200000000\n"),
        pwm: text("51\n"),
        freq_core: text("1500000000\n"),
        voltage: text("850\n"),
        ..nothing_to_read()
    };
    let none = MediaFigures {
        video: None,
        enc: None,
        dec: None,
    };
    let s = sample(&devices()[0], &reads, none, Some((7, 9)), true, true);
    assert!(matches!(s.utilization_pct, Some(Figure::Whole(100))));
    assert!(matches!(s.temperature_c, Some(Figure::Milli(45500))));
    assert!(matches!(s.power_w, Some(Figure::Micro(15_000_000))));
    assert!(matches!(s.power_limit_w, Some(Figure::Micro(200_000_000))));
    assert!(matches!(s.fan_pct, Some(Figure::Part { num: 51, den: 255 })));
    assert_eq!(s.clock_mhz, Some(1500));
    assert_eq!(s.volt_mv, Some(850));
    assert_eq!((s.pcie_rx_kbs, s.pcie_tx_kbs), (Some(7), Some(9)));
    assert_eq!(s.throttle.as_deref(), Some("thermal+power-limit"));
    assert_eq!(throttle_label(true, false).as_deref(), Some("thermal"));
    assert_eq!(throttle_label(false, false), None);
}

#[test]
fn the_metrics_revision_tells_apus_apart() {
    assert!(is_apu(&Some(vec![0, 0, 2, 0])));
    assert!(!is_apu(&Some(vec![0, 0, 1, 0])));
    assert!(!is_apu(&Some(vec![0, 0])));
    assert!(!is_apu(&None));
}
