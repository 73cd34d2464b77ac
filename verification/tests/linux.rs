use gpur::backend::linux::fdinfo::{parse_fdinfo, parse_ns, parse_size, FdClient};
use gpur::backend::linux::gts::gts_to_gen;
use gpur::backend::linux::scanner::{
    Ask, ProcScanner, ProcSnapshot, SweepCursor, MIN_WALK_INTERVAL_NS,
};
use gpur::backend::linux::sweep::{
    assign, build_proc, client_device, collect, ns_delta_share, ClientSample, Entry, ProcShare,
    Ratio, SweepDevice,
};
use gpur::backend::linux::sysfs::{
    card_index, cards_with_driver, driver_line, driver_line_for, fan_duty, hwmon_dir,
    marketing_name, parse_meminfo_total, pci_device_id, pci_device_name, pcie_current_link,
    pcie_link, pcie_max_link, read_u64, CardEntry, LinkTexts,
};
use gpur::backend::raw::{busy_on, Figure};
use gpur::backend::ProcKind;
use gpur::backend::{amd, intel, nvidia};
use gpur::keyed::TextMap;
use std::collections::HashSet;

/// A card and the render node and connector that reach the same device.
fn card(out: &mut Vec<CardEntry>, idx: u32, bdf: &str, vendor: &str, driver: &str) {
    for name in [
        format!("card{idx}"),
        format!("renderD{}", 128 + idx),
        format!("card{idx}-DP-1"),
    ] {
        out.push(CardEntry {
            file_name: name,
            vendor: Some(vendor.to_string()),
            driver: (!driver.is_empty()).then_some(driver.to_string()),
            pdev: Some(bdf.to_string()),
        });
    }
}

/// Three vendors' cards, in no particular order: two NVIDIA cards on different
/// drivers, one device per vendor without a driver, and one that is no PCI
/// device.
fn tri_vendor() -> Vec<CardEntry> {
    let mut v = Vec::new();
    card(&mut v, 4, "0000:05:00.0", "0x1002", "radeon");
    card(&mut v, 0, "0000:00:02.0", "0x8086", "i915");
    card(&mut v, 1, "0000:03:00.0", "0x1002", "amdgpu");
    card(&mut v, 2, "0000:01:00.0", "0x10de", "nvidia");
    card(&mut v, 3, "0000:04:00.0", "0x10de", "nouveau");
    card(&mut v, 5, "0000:06:00.0", "0x8086", "xe");
    card(&mut v, 6, "0000:07:00.0", "0x1002", "");
    card(&mut v, 7, "0000:08:00.0", "0x8086", "");
    card(&mut v, 8, "0000:09:00.0", "0x10de", "");
    v.push(CardEntry {
        file_name: "card9".to_string(),
        vendor: None,
        driver: None,
        pdev: None,
    });
    v
}

fn at<V: Copy>(m: &TextMap<V>, key: &str) -> Option<V> {
    m.get(&key.to_string()).copied()
}

#[test]
fn pci_device_ids_are_namespaced_and_optional() {
    assert_eq!(
        pci_device_id(&Some("0000:75:00.0".to_string())).as_deref(),
        Some("pci:0000:75:00.0")
    );
    assert_eq!(pci_device_id(&None), None);
}

const AMD_FDINFO: &str = "\
drm-driver:\tamdgpu
drm-client-id:\t7568
drm-pdev:\t0000:75:00.0
drm-engine-gfx:\t123456789 ns
drm-engine-dec:\t1000 ns
drm-memory-vram:\t12 KiB
drm-memory-gtt: \t2048 KiB
";

const I915_FDINFO: &str = "\
drm-driver:\ti915
drm-client-id:\t42
drm-pdev:\t0000:00:02.0
drm-engine-render:\t9876543 ns
drm-engine-video:\t100 ns
drm-engine-capacity-video:\t2
drm-total-local0:\t512 MiB
drm-resident-local0:\t256 MiB
drm-resident-stolen-local0:\t131072 KiB
drm-resident-system0:\t1234567
";

const XE_FDINFO: &str = "\
drm-driver:\txe
drm-client-id:\t7
drm-pdev:\t0000:03:00.0
drm-cycles-rcs:\t500
drm-total-cycles-rcs:\t1000
drm-cycles-vcs:\t10
drm-total-cycles-vcs:\t1000
drm-resident-vram0:\t4096 KiB
";

#[test]
fn parses_amdgpu_client() {
    let c = parse_fdinfo(AMD_FDINFO).unwrap();
    assert_eq!(c.driver, "amdgpu");
    assert_eq!(c.id, 7568);
    assert_eq!(c.pdev.as_deref(), Some("0000:75:00.0"));
    assert_eq!(at(&c.engine_ns, "gfx"), Some(123_456_789));
    assert_eq!(c.total_engine_ns(), 123_456_789 + 1000);
    assert_eq!(at(&c.memory, "vram"), Some(12 << 10));
    assert_eq!(at(&c.memory, "gtt"), Some(2048 << 10));
}

#[test]
fn parses_i915_client_skipping_capacity() {
    let c = parse_fdinfo(I915_FDINFO).unwrap();
    assert_eq!(c.driver, "i915");
    assert_eq!(at(&c.engine_ns, "render"), Some(9_876_543));
    assert_eq!(at(&c.engine_ns, "capacity-video"), None);
    assert_eq!(at(&c.memory, "local0"), Some(256 << 20));
    assert_eq!(at(&c.memory, "stolen-local0"), Some(131_072 << 10));
    assert_eq!(at(&c.memory, "system0"), Some(1_234_567));
    assert_eq!(at(&c.memory, "total-local0"), None);
}

#[test]
fn parse_size_honours_unit_suffix() {
    assert_eq!(parse_size("1234567"), 1_234_567);
    assert_eq!(parse_size("12 KiB"), 12 << 10);
    assert_eq!(parse_size("512 MiB"), 512 << 20);
    assert_eq!(parse_size("2 GiB"), 2 << 30);
    assert_eq!(parse_size("0"), 0);
    assert_eq!(parse_size("0 KiB"), 0);
    assert_eq!(parse_size(""), 0);
    assert_eq!(parse_size("42 TiB"), 42);
    assert_eq!(parse_size(&format!("{} GiB", u64::MAX)), u64::MAX);
}

#[test]
fn xe_cycles_utilization() {
    let prev = parse_fdinfo(XE_FDINFO).unwrap();
    let mut cur = parse_fdinfo(XE_FDINFO).unwrap();
    cur.cycles.insert("rcs".to_string(), (800, 2000));
    cur.cycles.insert("vcs".to_string(), (110, 2000));
    let share = |r: Ratio| r.num as f64 / r.den as f64;
    assert!((share(cur.xe_ratio(&prev.cycles, |_| true)) - 0.3).abs() < 1e-9);
    assert!(
        (share(cur.xe_ratio(&prev.cycles, |n| n.starts_with("vcs"))) - 0.1).abs() < 1e-9
    );
    assert_eq!(at(&cur.memory, "vram0"), Some(4096 * 1024));
}

#[test]
fn an_engine_is_never_busier_than_all_the_time() {
    let prev = parse_fdinfo(XE_FDINFO).unwrap();
    let mut cur = parse_fdinfo(XE_FDINFO).unwrap();
    let (busy, total) = at(&prev.cycles, "rcs").unwrap();
    cur.cycles.insert("rcs".to_string(), (busy + 3000, total + 1000));
    let all = cur.xe_ratio(&prev.cycles, |_| true);
    assert!(all.den > 0 && all.num == all.den, "{all:?}");
    let none = cur.xe_ratio(&prev.cycles, |n| n == "no such engine");
    assert!(none.den > 0 && none.num == 0, "{none:?}");
}

#[test]
fn non_drm_fdinfo_is_none() {
    assert!(parse_fdinfo("pos:\t0\nflags:\t0100002\n").is_none());
}

#[test]
fn card_index_filters_connectors_and_render_nodes() {
    assert_eq!(card_index("card0"), Some(0));
    assert_eq!(card_index("card12"), Some(12));
    assert_eq!(card_index("card1-DP-1"), None);
    assert_eq!(card_index("renderD128"), None);
    assert_eq!(card_index("version"), None);
}

const IDS: &str = "\
# comment
1002  Advanced Micro Devices, Inc. [AMD/ATI]
\t13c0  Phoenix2
\t744c  Navi 31 [Radeon RX 7900 XT/7900 XTX/7900M]
\t\t1002 0e3b  Some subsystem
8086  Intel Corporation
\t56a0  DG2 [Arc A770]
";

#[test]
fn pcie_gen_from_gts_string() {
    assert_eq!(gts_to_gen("2.5 GT/s PCIe"), Some(1));
    assert_eq!(gts_to_gen("8.0 GT/s PCIe"), Some(3));
    assert_eq!(gts_to_gen("16.0 GT/s PCIe"), Some(4));
    assert_eq!(gts_to_gen("32.0 GT/s PCIe"), Some(5));
    assert_eq!(gts_to_gen("64.0 GT/s PCIe"), Some(6));
    assert_eq!(gts_to_gen("Unknown"), None);
    assert_eq!(gts_to_gen("garbage"), None);
}

fn link(cur: Option<&str>, width: Option<&str>, max: Option<&str>, lanes: Option<&str>) -> LinkTexts {
    let own = |s: Option<&str>| s.map(str::to_string);
    LinkTexts {
        current_speed: own(cur),
        current_width: own(width),
        max_speed: own(max),
        max_width: own(lanes),
    }
}

#[test]
fn pcie_link_reads_current_and_max() {
    let t = link(
        Some("8.0 GT/s PCIe\n"),
        Some("8\n"),
        Some("16.0 GT/s PCIe\n"),
        Some("16\n"),
    );
    assert_eq!(pcie_link(&t), (Some(3), Some(8), Some(4), Some(16)));
}

#[test]
fn pcie_link_absent_files_are_none() {
    assert_eq!(pcie_link(&link(None, None, None, None)), (None, None, None, None));
    assert_eq!(
        pcie_link(&link(None, Some("4\n"), Some("Unknown\n"), None)),
        (None, Some(4), None, None)
    );
}

#[test]
fn pcie_link_splits_current_from_max() {
    let t = link(Some("8.0 GT/s PCIe\n"), Some("8\n"), None, None);
    assert_eq!(pcie_current_link(&t), (Some(3), Some(8)));
    assert_eq!(pcie_max_link(&t), (None, None));
    let t = link(
        Some("8.0 GT/s PCIe\n"),
        Some("8\n"),
        Some("16.0 GT/s PCIe\n"),
        Some("16\n"),
    );
    assert_eq!(pcie_max_link(&t), (Some(4), Some(16)));
    assert_eq!(pcie_link(&t), (Some(3), Some(8), Some(4), Some(16)));
}

#[test]
fn fan_duty_is_a_percentage_of_this_cards_own_pwm_scale() {
    let pct = |pwm: Option<&str>, max: Option<&str>| {
        fan_duty(
            read_u64(&pwm.map(str::to_string)),
            read_u64(&max.map(str::to_string)),
        )
        .map(|(n, of)| n as f64 / of as f64 * 100.0)
    };
    assert!((pct(Some("128\n"), None).unwrap() - 128.0 / 255.0 * 100.0).abs() < 1e-9);
    assert!((pct(Some("50\n"), Some("100\n")).unwrap() - 50.0).abs() < 1e-9);
    assert!((pct(Some("50\n"), Some("0\n")).unwrap() - 50.0 / 255.0 * 100.0).abs() < 1e-9);
    assert_eq!(pct(None, Some("0\n")), None);
    assert_eq!(pct(None, None), None);
}

#[test]
fn hwmon_dir_prefers_the_driver_named_child_over_readdir_order() {
    let names = vec![Some("backlight".to_string()), Some("amdgpu".to_string())];
    assert_eq!(hwmon_dir(&names, "amdgpu"), Some(1));
}

#[test]
fn hwmon_dir_matches_the_legacy_driver_name() {
    let names = vec![Some("amdgpu_legacy".to_string())];
    assert_eq!(hwmon_dir(&names, "amdgpu"), Some(0));
    let names = vec![None, Some("amdgpux".to_string()), Some("amdgpu_legacy".to_string())];
    assert_eq!(hwmon_dir(&names, "amdgpu"), Some(2));
}

#[test]
fn hwmon_dir_falls_back_to_the_first_child_when_none_names_the_driver() {
    let names = vec![
        Some("backlight".to_string()),
        Some("another_chip".to_string()),
    ];
    assert_eq!(hwmon_dir(&names, "amdgpu"), Some(0));
    assert_eq!(hwmon_dir(&vec![], "amdgpu"), None);
}

#[test]
fn the_driver_line_names_every_driver_in_use_once() {
    let kernel = sysinfo::System::kernel_version().ok();
    let line = |drivers: &[&str]| {
        driver_line_for(&drivers.iter().map(|d| d.to_string()).collect(), &kernel)
    };
    let expect = |names: &str| kernel.as_ref().map(|k| format!("{names} · kernel {k}"));

    assert_eq!(line(&["amdgpu", "radeon"]), expect("amdgpu+radeon"));
    assert_eq!(line(&["radeon", "amdgpu"]), line(&["amdgpu", "radeon"]));
    assert_eq!(line(&["i915", "i915", "xe"]), expect("i915+xe"));
    assert_eq!(line(&["nouveau"]), driver_line("nouveau", &kernel));

    let known = Some("6.12.1".to_string());
    assert_eq!(
        driver_line_for(&vec!["xe".to_string(), "i915".to_string()], &known).as_deref(),
        Some("i915+xe · kernel 6.12.1")
    );
    assert_eq!(driver_line("xe", &None), None);
}

#[test]
fn meminfo_total_parses_kb() {
    assert_eq!(
        parse_meminfo_total("MemTotal:       32770396 kB\nMemFree:  100 kB\n"),
        Some(32_770_396 * 1024)
    );
    assert_eq!(parse_meminfo_total("MemFree:  100 kB\n"), None);
    assert_eq!(parse_meminfo_total("MemTotal:\n"), None);
}

/// Numbers and drivers of the claimed cards.
fn claimed<F: Fn(&str) -> bool>(
    cards: &Vec<CardEntry>,
    vendor: &str,
    accept: F,
) -> Vec<(u32, String)> {
    cards_with_driver(cards, vendor, accept)
        .iter()
        .map(|c| (c.index, cards[c.at].driver.clone().unwrap()))
        .collect()
}

#[test]
fn card_scan_filters_by_name_and_by_driver() {
    let cards = tri_vendor();
    let own = |v: &[(u32, &str)]| -> Vec<(u32, String)> {
        v.iter().map(|(i, d)| (*i, d.to_string())).collect()
    };

    assert_eq!(
        claimed(&cards, "0x1002", |d| d == "amdgpu"),
        own(&[(1, "amdgpu")]),
        "the render node and the connector are of vendor 0x1002 too"
    );
    let both = claimed(&cards, "0x1002", |d| d == "amdgpu" || d == "radeon");
    assert_eq!(both, own(&[(1, "amdgpu"), (4, "radeon")]));
    assert!(!both.iter().any(|(i, _)| *i == 6));
    assert!(claimed(&cards, "0x1002", |_| true).iter().all(|(i, _)| *i != 9));

    assert_eq!(
        claimed(&cards, "0x8086", |d| d == "i915" || d == "xe"),
        own(&[(0, "i915"), (5, "xe")])
    );
    assert_eq!(
        claimed(&cards, "0x10de", |d| d == "nouveau"),
        own(&[(3, "nouveau")])
    );
    assert!(claimed(&cards, "0x1002", |_| true)
        .windows(2)
        .all(|w| w[0].0 < w[1].0));
}

#[test]
fn the_linux_backends_partition_one_drm_directory() {
    let cards = tri_vendor();
    let amd = amd::claimed_ids(&cards);
    let intel = intel::claimed_ids(&cards);
    let nvidia = nvidia::claimed_ids(&cards);

    assert_eq!(amd, ["pci:0000:03:00.0", "pci:0000:05:00.0"]);
    assert_eq!(intel, ["pci:0000:00:02.0", "pci:0000:06:00.0"]);
    assert_eq!(nvidia, ["pci:0000:04:00.0"]);

    let all: Vec<&String> = amd.iter().chain(&intel).chain(&nvidia).collect();
    let unique: HashSet<&&String> = all.iter().collect();
    assert_eq!(all.len(), 5);
    assert_eq!(unique.len(), all.len(), "a device claimed by two backends");
    assert!(!all.iter().any(|id| id.ends_with("0000:01:00.0")));
}

#[test]
fn identities_come_by_card_number_and_only_from_claimed_cards() {
    let mut cards = Vec::new();
    card(&mut cards, 10, "0000:0a:00.0", "0x1002", "amdgpu");
    card(&mut cards, 2, "0000:0b:00.0", "0x1002", "amdgpu");
    card(&mut cards, 3, "0000:0c:00.0", "0x1002", "i915");
    card(&mut cards, 4, "0000:0d:00.0", "0x10de", "nvidia");
    card(&mut cards, 5, "0000:0e:00.0", "0x8086", "xe");
    cards.push(CardEntry {
        file_name: "card1".to_string(),
        vendor: Some("0x1002".to_string()),
        driver: Some("amdgpu".to_string()),
        pdev: None,
    });
    assert_eq!(amd::claimed_ids(&cards), ["pci:0000:0b:00.0", "pci:0000:0a:00.0"]);
    assert_eq!(intel::claimed_ids(&cards), ["pci:0000:0e:00.0"]);
    assert_eq!(nvidia::claimed_ids(&cards), [""; 0]);
}

#[test]
fn card_scan_resolves_the_pci_address() {
    let cards = tri_vendor();
    let found = cards_with_driver(&cards, "0x1002", |d| d == "amdgpu");
    let pdev = &cards[found[0].at].pdev;
    assert_eq!(pdev.as_deref(), Some("0000:03:00.0"));
    assert_eq!(pci_device_id(pdev).as_deref(), Some("pci:0000:03:00.0"));
}

fn sweep_dev(pdev: &str, driver: &str) -> SweepDevice {
    SweepDevice {
        pdev: Some(pdev.to_string()),
        driver: driver.to_string(),
    }
}

#[test]
fn clients_attribute_by_address_and_driver() {
    let amd = vec![sweep_dev("0000:03:00.0", "amdgpu")];
    let intel = vec![
        sweep_dev("0000:00:02.0", "i915"),
        sweep_dev("0000:06:00.0", "xe"),
    ];

    let i915_client = parse_fdinfo(I915_FDINFO).unwrap();
    assert_eq!(client_device(&intel, &i915_client), Some(0));
    assert_eq!(
        client_device(&amd, &i915_client),
        None,
        "an Intel client must not land on the AMD backend's only card"
    );

    let amd_client = parse_fdinfo(AMD_FDINFO).unwrap();
    let impostor = vec![sweep_dev("0000:75:00.0", "i915")];
    assert_eq!(client_device(&impostor, &amd_client), None);
    assert_eq!(
        client_device(&vec![sweep_dev("0000:75:00.0", "amdgpu")], &amd_client),
        Some(0)
    );

    let xe_client = parse_fdinfo(XE_FDINFO).unwrap();
    assert_eq!(
        client_device(
            &vec![sweep_dev("0000:00:02.0", "xe"), sweep_dev("0000:03:00.0", "xe")],
            &xe_client
        ),
        Some(1)
    );
    let mut anon = parse_fdinfo(AMD_FDINFO).unwrap();
    anon.pdev = None;
    assert_eq!(
        client_device(&vec![sweep_dev("0000:75:00.0", "amdgpu")], &anon),
        None
    );
}

#[test]
fn pci_lookup_finds_device_in_vendor_section() {
    assert_eq!(
        pci_device_name(IDS, "1002", "744c").as_deref(),
        Some("Navi 31 [Radeon RX 7900 XT/7900 XTX/7900M]")
    );
    assert_eq!(
        pci_device_name(IDS, "8086", "56a0").as_deref(),
        Some("DG2 [Arc A770]")
    );
    assert_eq!(pci_device_name(IDS, "1002", "0e3b"), None);
}

#[test]
fn marketing_name_prefers_the_bracketed_marketing_name() {
    assert_eq!(
        marketing_name("Navi 31 [Radeon RX 7900 XT/7900 XTX/7900M]"),
        "Radeon RX 7900 XT/7900 XTX/7900M"
    );
    assert_eq!(marketing_name("DG2 [Arc A770]"), "Arc A770");
    assert_eq!(
        marketing_name("Vega 10 XT [Radeon RX Vega 64]"),
        "Radeon RX Vega 64"
    );
}

#[test]
fn marketing_name_falls_back_without_a_bracket() {
    assert_eq!(
        marketing_name("VGA compatible controller"),
        "VGA compatible controller"
    );
    assert_eq!(marketing_name(""), "");
}

#[test]
fn marketing_name_keeps_an_empty_codename_out_of_the_result() {
    assert_eq!(marketing_name("[Radeon RX 7900 XT]"), "Radeon RX 7900 XT");
}

/// The counted clients of a walk, each with the same sample.
fn entries(clients: &Vec<(u32, FdClient)>, devices: &Vec<SweepDevice>, s: ClientSample) -> Vec<Entry> {
    assign(clients, devices)
        .iter()
        .map(|a| Entry {
            pid: clients[a.client].0,
            id: clients[a.client].1.id,
            gpu: a.gpu,
            sample: s,
        })
        .collect()
}

/// The sum of the shares that count for a card, in percent.
fn util_on(entries: &[Entry], gpu: usize) -> Option<f64> {
    let marks = entries.iter().map(|e| (e.gpu, Some(e.sample.util))).collect();
    match busy_on(&marks, gpu) {
        Some(Figure::Shares(v)) => {
            Some(v.iter().map(|r| r.num as f64 / r.den as f64 * 100.0).sum())
        }
        _ => None,
    }
}

fn sample_of(pct: u64) -> ClientSample {
    ClientSample {
        util: Ratio { num: pct, den: 100 },
        video: Ratio { num: 1, den: 100 },
        mem_bytes: 1 << 20,
        graphics: true,
    }
}

#[test]
fn the_sweep_totals_per_device_and_rows_per_process() {
    let devices = vec![
        sweep_dev("0000:75:00.0", "amdgpu"),
        sweep_dev("0000:00:02.0", "i915"),
    ];
    let amd = || parse_fdinfo(AMD_FDINFO).unwrap();
    let i915 = || parse_fdinfo(I915_FDINFO).unwrap();
    let mut second = amd();
    second.id = 999;
    let clients = vec![(10, amd()), (10, second), (11, amd()), (11, i915())];
    let counted = entries(&clients, &devices, sample_of(10));

    assert_eq!(util_on(&counted, 0), Some(30.0), "three amdgpu clients");
    assert_eq!(util_on(&counted, 1), Some(10.0), "one i915 client");

    let mut rows: Vec<(u32, usize, Option<u64>)> = collect(&counted)
        .into_iter()
        .map(build_proc)
        .map(|p| (p.pid, p.gpu_index, p.gpu_mem_bytes))
        .collect();
    rows.sort_unstable();
    assert_eq!(
        rows,
        [
            (10, 0, Some(2 << 20)),
            (11, 0, Some(1 << 20)),
            (11, 1, Some(1 << 20)),
        ]
    );
    assert_eq!(counted.len(), 4, "one entry per (pid, client id)");
}

#[test]
fn one_client_seen_twice_is_counted_once() {
    let devices = vec![sweep_dev("0000:75:00.0", "amdgpu")];
    let client = || parse_fdinfo(AMD_FDINFO).unwrap();
    let counted = entries(
        &vec![(10, client()), (10, client())],
        &devices,
        sample_of(10),
    );

    assert_eq!(counted.len(), 1, "the duplicate was counted");
    assert_eq!(util_on(&counted, 0), Some(10.0));
    let rows = collect(&counted);
    assert_eq!(rows.len(), 1);
    assert_eq!(rows[0].mem_bytes, 1 << 20);
}

#[test]
fn a_backend_attributes_only_its_own_vendors_clients() {
    let devices = vec![sweep_dev("0000:75:00.0", "amdgpu")];
    let mut orphan = parse_fdinfo(AMD_FDINFO).unwrap();
    orphan.pdev = None;
    let clients = vec![
        (10, parse_fdinfo(AMD_FDINFO).unwrap()),
        (11, parse_fdinfo(I915_FDINFO).unwrap()),
        (12, parse_fdinfo(XE_FDINFO).unwrap()),
        (13, orphan),
    ];
    let counted = entries(&clients, &devices, sample_of(0));
    assert_eq!(counted.iter().map(|e| e.pid).collect::<Vec<_>>(), [10]);
    assert_eq!(collect(&counted).len(), 1);
}

#[test]
fn a_cursor_attributes_each_walk_once() {
    let mut scanner = ProcScanner::detached();
    let mut cursor = SweepCursor::on();

    scanner.publish(vec![(10, parse_fdinfo(AMD_FDINFO).unwrap())], 0);
    let first = cursor.next(scanner.latest()).expect("a published walk");
    assert_eq!(first.clients.len(), 1);
    let first_seq = first.seq;
    assert!(
        cursor.next(scanner.latest()).is_none(),
        "the same walk came back twice"
    );
    assert!(cursor.next(scanner.latest()).is_none(), "and again");

    scanner.publish(Vec::new(), 1_000_000_000);
    let second = cursor.next(scanner.latest()).expect("the newer walk").seq;
    assert!(second > first_seq);
    assert!(cursor.next(scanner.latest()).is_none());

    let mut other = SweepCursor::on();
    assert_eq!(other.next(scanner.latest()).map(|s| s.seq), Some(second));
}

/// A walk of nothing, finished at `at`.
fn walk(seq: u64, at: u64) -> ProcSnapshot {
    ProcSnapshot {
        clients: Vec::new(),
        at,
        seq,
    }
}

#[test]
fn the_worker_thread_publishes_successive_walks() {
    let mut scanner = ProcScanner::detached();
    let mut cursor = SweepCursor::on();
    let mut walks: Vec<(u64, u64)> = Vec::new();
    let mut now = 0;
    while walks.len() < 3 {
        scanner.ask(now);
        if let Some(n) = scanner.begin_walk() {
            scanner.end_walk(walk(n, now));
        }
        if let Some(s) = cursor.next(scanner.latest()) {
            walks.push((s.seq, s.at));
        }
        now += MIN_WALK_INTERVAL_NS;
    }
    for w in walks.windows(2) {
        assert!(w[1].0 > w[0].0, "a walk was published twice");
        assert!(w[1].1 > w[0].1, "walks are not ordered in time");
    }
}

#[test]
fn synchronous_mode_walks_on_the_calling_thread() {
    let mut scanner = ProcScanner::detached();
    scanner.set_synchronous(true);
    let mut cursor = SweepCursor::on();

    let mut last: Option<(u64, u64)> = None;
    for asked in [1_000, 2_000] {
        let Ask::WalkHere(n) = scanner.ask(asked) else {
            panic!("a synchronous caller walks itself");
        };
        scanner.scanned_here(walk(n, asked + 500));
        let got = cursor.next(scanner.latest()).expect("walked here");
        assert!(got.at >= asked, "served a walk older than the request");
        if let Some((seq, at)) = last {
            assert!(got.seq > seq, "the same walk was served twice");
            assert!(got.at > at);
        }
        last = Some((got.seq, got.at));
    }
}

#[test]
fn a_refused_worker_spawn_degrades_to_synchronous_mode() {
    let mut refused = ProcScanner::detached();
    refused.on_spawn_outcome(false);
    assert!(
        refused.synchronous,
        "a refused spawn did not switch to synchronous mode"
    );
    let mut accepted = ProcScanner::detached();
    accepted.on_spawn_outcome(true);
    assert!(
        !accepted.synchronous,
        "a successful spawn switched to synchronous mode"
    );
}

#[test]
fn later_requests_get_higher_numbers() {
    let mut scanner = ProcScanner::detached();
    let slow = scanner.begin_walk().expect("the first walk is wanted");
    scanner.set_synchronous(true);
    let mut highest = slow;
    for i in 0..6 {
        let Ask::WalkHere(n) = scanner.ask(i) else {
            panic!("a synchronous caller walks itself");
        };
        assert!(n > highest);
        highest = n;
        match i {
            1 => scanner.end_walk(walk(slow, i)),
            2 | 3 => scanner.scanned_here(walk(n, i)),
            4 => {
                scanner.publish(Vec::new(), i);
                highest += 1;
            }
            _ => {}
        }
        assert!(scanner.latest().map_or(true, |s| s.seq <= highest));
    }
}

#[test]
fn the_worker_serves_paced_walks_not_one_per_request() {
    let mut scanner = ProcScanner::detached();
    assert_eq!(scanner.ask(0), Ask::Wait { wake: true });
    let n = scanner.begin_walk().expect("the first walk is wanted");
    assert_eq!(scanner.ask(1), Ask::Wait { wake: false }, "one is running");
    scanner.end_walk(walk(n, 10));
    assert_eq!(
        scanner.ask(10 + MIN_WALK_INTERVAL_NS - 1),
        Ask::Take { wake: false }
    );
    assert_eq!(scanner.begin_walk(), None);
    assert_eq!(
        scanner.ask(10 + MIN_WALK_INTERVAL_NS),
        Ask::Take { wake: true }
    );
    assert_eq!(scanner.begin_walk(), Some(n + 1));
}

#[test]
fn the_seq_counter_never_regresses_across_worker_and_sync_walks() {
    let mut scanner = ProcScanner::detached();
    let slow = scanner.begin_walk().expect("the first walk is wanted");
    scanner.set_synchronous(true);
    let mut cursor = SweepCursor::on();
    let mut last = 0;
    for i in 0..4 {
        let Ask::WalkHere(n) = scanner.ask(i) else {
            panic!("a synchronous caller walks itself");
        };
        if i == 2 {
            scanner.end_walk(walk(slow, i));
        }
        scanner.scanned_here(walk(n, i));
        let seq = cursor
            .next(scanner.latest())
            .expect("a synchronous poll always walks fresh")
            .seq;
        assert!(seq > last, "seq regressed: {last} -> {seq}");
        last = seq;
    }
}

#[test]
fn a_swept_row_reports_zero_memory_as_a_measurement() {
    let share = |pid, mem, graphics| ProcShare {
        pid,
        gpu: 0,
        mem_bytes: mem,
        graphics,
        util: Vec::new(),
    };
    let idle = build_proc(share(1, 0, false));
    assert_eq!(idle.gpu_mem_bytes, Some(0));
    assert_eq!(idle.kind, ProcKind::Compute);
    let busy = build_proc(share(2, 1 << 30, true));
    assert_eq!(busy.gpu_mem_bytes, Some(1 << 30));
    assert_eq!(busy.kind, ProcKind::Graphics);
}

#[test]
fn busy_shares_are_capped_and_need_an_interval() {
    let r = |num, den| Ratio { num, den };
    assert_eq!(ns_delta_share(None, 5, 10), r(0, 1));
    assert_eq!(ns_delta_share(Some((0, 10)), 5, 10), r(0, 1));
    assert_eq!(ns_delta_share(Some((100, 0)), 350, 1000), r(250, 1000));
    assert_eq!(ns_delta_share(Some((100, 0)), 5000, 1000), r(1000, 1000));
    assert_eq!(ns_delta_share(Some((900, 0)), 10, 1000), r(0, 1000));
}

#[test]
fn a_counter_is_read_up_to_its_unit() {
    assert_eq!(parse_ns("123456 ns"), 123_456);
    assert_eq!(parse_ns("77"), 77);
    assert_eq!(parse_ns(""), 0);
    assert_eq!(parse_ns("busy ns"), 0);
}
