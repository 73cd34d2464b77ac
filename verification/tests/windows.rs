use gpur::backend::raw::Figure;
use gpur::backend::windows::{
    adapter_of, is_integrated, luid_and_engtype, luid_prefix, pid_prefix, proc_mem_bytes, retain_unclaimed,
    sum_by, AdapterDesc, PdhBackend, PdhCounters, MICROSOFT_BASIC_RENDER,
};
use gpur::order::Real;

const ENGINE: &str = "pid_1234_luid_0x00000000_0x0000c4cf_phys_0_eng_0_engtype_3d";
const ADAPTER_MEM: &str = "luid_0x00000000_0x0000c4cf_phys_0";

#[test]
fn luid_prefix_reads_full_26_char_key() {
    let key = Some("luid_0x00000000_0x0000c4cf".to_string());
    assert_eq!(luid_prefix(ENGINE), key);
    assert_eq!(luid_prefix(ADAPTER_MEM), key);
    assert_eq!(luid_prefix("luid_0x00000000_0x0000c4cf"), key);
    assert_ne!(
        luid_prefix("luid_0x00000000_0x0000c4cf"),
        luid_prefix("luid_0x00000000_0x0000c4d0")
    );
    assert_eq!(
        luid_prefix("pid_9_luid_0x0000abcd_0xffffffff_phys_0"),
        Some("luid_0x0000abcd_0xffffffff".to_string())
    );
}

#[test]
fn luid_prefix_rejects_malformed_keys() {
    assert_eq!(luid_prefix("pid_1234_phys_0_engtype_3d"), None);
    assert_eq!(luid_prefix(""), None);
    assert_eq!(luid_prefix("luid_0x00000000_0x0000"), None);
    assert_eq!(luid_prefix("luid_0x0000_0x0000c4cf"), None);
    assert_eq!(luid_prefix("luid_00000000_0x0000c4cf"), None);
    assert_eq!(luid_prefix("luid_0x00000000_0xzzzzc4cf"), None);
    assert_eq!(luid_prefix("luid_0x00000000_0x0000c4cff"), None);
    assert_eq!(luid_prefix("xluid_0x00000000_0x0000c4cf"), None);
}

#[test]
fn luid_and_engtype_splits_instance() {
    assert_eq!(
        luid_and_engtype(ENGINE),
        Some(("luid_0x00000000_0x0000c4cf".to_string(), "3d".to_string()))
    );
    assert_eq!(
        luid_and_engtype("pid_5_luid_0x00000000_0x0000c4cf_phys_0_eng_1_engtype_videodecode"),
        Some((
            "luid_0x00000000_0x0000c4cf".to_string(),
            "videodecode".to_string()
        ))
    );
    assert_eq!(luid_and_engtype(ADAPTER_MEM), None);
    assert_eq!(luid_and_engtype("pid_5_phys_0_engtype_3d"), None);
}

#[test]
fn pid_prefix_reads_leading_pid() {
    assert_eq!(pid_prefix(ENGINE), Some(1234));
    assert_eq!(pid_prefix("pid_0_luid_0x00000000_0x0000c4cf"), Some(0));
    assert_eq!(pid_prefix(ADAPTER_MEM), None);
    assert_eq!(pid_prefix("pid_abc_luid_0x00000000_0x0000c4cf"), None);
    assert_eq!(pid_prefix("pid_99999999999_luid_0x0_0x0"), None);
}

#[test]
fn integrated_heuristic_separates_small_discrete_cards() {
    const GIB: u64 = 1024 * 1024 * 1024;
    const MIB: u64 = 1024 * 1024;
    assert!(is_integrated(128 * MIB, 16 * GIB));
    assert!(is_integrated(0, 8 * GIB));
    assert!(!is_integrated(512 * MIB, 16 * GIB));
    assert!(!is_integrated(2 * GIB, 16 * GIB));
    assert!(!is_integrated(8 * GIB, 16 * GIB));
    assert!(!is_integrated(256 * MIB, 256 * MIB));
}

#[test]
fn a_process_with_no_memory_instance_reads_unknown() {
    assert_eq!(proc_mem_bytes(false, None, None), None);
    assert_eq!(proc_mem_bytes(true, None, None), None);
    assert_ne!(proc_mem_bytes(false, None, None), Some(0));
}

#[test]
fn the_relevant_counter_is_the_reading_zero_included() {
    assert_eq!(proc_mem_bytes(false, Some(512), Some(64)), Some(512));
    assert_eq!(proc_mem_bytes(false, Some(0), None), Some(0));
    assert_eq!(proc_mem_bytes(true, Some(512), Some(64)), Some(64));
    assert_eq!(proc_mem_bytes(true, None, Some(0)), Some(0));
}

#[test]
fn the_other_counter_alone_still_proves_the_process_was_accounted_for() {
    assert_eq!(proc_mem_bytes(false, None, Some(4096)), Some(0));
    assert_eq!(proc_mem_bytes(true, Some(4096), None), Some(0));
}

const NVIDIA: u16 = 0x10de;
const AMD: u16 = 0x1002;
const INTEL: u16 = 0x8086;

fn rig() -> Vec<(&'static str, u32)> {
    vec![
        ("NVIDIA GeForce RTX 4090", 0x10de),
        ("AMD Radeon 780M", 0x1002),
        ("Intel UHD Graphics 770", 0x8086),
    ]
}

fn kept(claimed: &[u16]) -> Vec<&'static str> {
    retain_unclaimed(rig(), claimed, |a| a.1)
        .into_iter()
        .map(|a| a.0)
        .collect()
}

#[test]
fn unclaimed_adapters_survive_in_dxgi_order() {
    assert_eq!(
        kept(&[]),
        [
            "NVIDIA GeForce RTX 4090",
            "AMD Radeon 780M",
            "Intel UHD Graphics 770"
        ]
    );
    assert_eq!(
        kept(&[NVIDIA]),
        ["AMD Radeon 780M", "Intel UHD Graphics 770"]
    );
    assert_eq!(kept(&[NVIDIA, INTEL]), ["AMD Radeon 780M"]);
    assert_eq!(kept(&[NVIDIA, NVIDIA]), kept(&[NVIDIA]));
}

#[test]
fn several_adapters_of_one_vendor_are_all_kept_or_all_dropped() {
    let rig = || {
        vec![
            ("RTX 4090", 0x10de_u32),
            ("RTX 3060", 0x10de),
            ("Intel UHD 770", 0x8086),
            ("Intel Arc A770", 0x8086),
        ]
    };
    let kept = |claimed: &[u16]| -> Vec<&'static str> {
        retain_unclaimed(rig(), claimed, |a| a.1)
            .into_iter()
            .map(|a| a.0)
            .collect()
    };
    assert_eq!(kept(&[NVIDIA]), ["Intel UHD 770", "Intel Arc A770"]);
    assert_eq!(kept(&[INTEL]), ["RTX 4090", "RTX 3060"]);
    assert!(kept(&[NVIDIA, INTEL]).is_empty());
}

#[test]
fn a_fully_claimed_rig_keeps_no_adapters() {
    assert!(kept(&[NVIDIA, AMD, INTEL]).is_empty());
    assert!(retain_unclaimed(Vec::new(), &[], |a: &(&str, u32)| a.1).is_empty());
}

#[test]
fn vendor_ids_are_compared_at_dxgi_width() {
    let odd = vec![("weird adapter", 0x0001_10de_u32)];
    assert_eq!(retain_unclaimed(odd, &[NVIDIA], |a| a.1).len(), 1);
}

fn desc(software: bool, vendor_id: u32, name: &str, low: u32, dedicated: u64) -> AdapterDesc {
    AdapterDesc {
        software,
        vendor_id,
        description: name.to_string(),
        luid_high: 0,
        luid_low: low,
        dedicated_bytes: dedicated,
        shared_bytes: 16 << 30,
    }
}

#[test]
fn an_adapter_goes_by_the_key_its_counters_carry() {
    let a = adapter_of(&desc(false, 0x1002, "Radeon\0\0", 0xc4cf, 8 << 30)).unwrap();
    assert_eq!(a.luid_key, "luid_0x00000000_0x0000c4cf");
    assert_eq!(luid_prefix(&a.luid_key).as_ref(), Some(&a.luid_key));
    assert_eq!(a.name, "Radeon");
    assert_eq!((a.integrated, a.vram_total), (false, 8 << 30));
    let apu = adapter_of(&desc(false, 0x8086, "UHD", 1, 128 << 20)).unwrap();
    assert_eq!((apu.integrated, apu.vram_total), (true, 16 << 30));
    assert!(adapter_of(&desc(true, 0x1002, "soft", 1, 0)).is_none());
    assert!(adapter_of(&desc(false, MICROSOFT_BASIC_RENDER, "basic", 1, 0)).is_none());
}

/// The sum of an engine group's values.
fn total(values: &[Real]) -> f64 {
    values.iter().map(|v| f64::from_bits(v.bits)).sum()
}

#[test]
fn counters_become_cards_and_rows() {
    let key = "luid_0x00000000_0x0000c4cf";
    let engine = |pid: u32, eng: &str, v: f64| {
        (
            format!("pid_{pid}_{key}_phys_0_eng_0_engtype_{eng}"),
            Real { bits: v.to_bits() },
        )
    };
    let mem = |pid: u32, b: u64| (format!("pid_{pid}_{key}_phys_0"), b);
    let counters = PdhCounters {
        engines: vec![
            engine(5, "3d", 30.0),
            engine(6, "3d", 12.0),
            engine(6, "videodecode", 4.0),
            ("nonsense".to_string(), Real { bits: 0 }),
        ],
        dedicated: vec![(format!("{key}_phys_0"), 3 << 30)],
        shared: vec![],
        proc_dedicated: vec![mem(5, 1 << 30)],
        proc_shared: vec![mem(6, 1)],
    };
    assert!(counters.all_fit());
    let mut b = PdhBackend {
        adapters: vec![adapter_of(&desc(false, 0x1002, "Radeon", 0xc4cf, 8 << 30)).unwrap()],
        last_procs: Vec::new(),
    };
    let out = b.poll(&counters);
    assert_eq!(out.len(), 1);
    assert_eq!(out[0].device_id.as_deref(), Some(key));
    assert_eq!(out[0].vram_used_bytes, Some(3 << 30));
    match &out[0].utilization_pct {
        Some(Figure::Busiest(groups)) => {
            let of = |eng: &str| {
                let g = groups.iter().find(|g| g.eng == eng).expect("the engine is listed");
                total(&g.values)
            };
            assert_eq!((of("3d"), of("videodecode")), (42.0, 4.0));
        }
        other => panic!("{other:?}"),
    }
    let mut rows: Vec<(u32, Option<u64>)> =
        b.last_procs.iter().map(|p| (p.pid, p.gpu_mem_bytes)).collect();
    rows.sort_unstable();
    assert_eq!(rows, [(5, Some(1 << 30)), (6, Some(0))]);
    assert_eq!(sum_by(&counters.proc_dedicated, key, Some(5)), Some(1 << 30));
    assert_eq!(sum_by(&counters.proc_dedicated, key, Some(9)), None);
}
