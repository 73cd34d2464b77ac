use gpur::backend::apple::{driver_line, is_agx, le_int, snapshot, RawAccel};
use gpur::backend::raw::Figure;

fn agx(cores: Option<i64>) -> RawAccel {
    RawAccel {
        io_class: Some("AGXAcceleratorG13X".to_string()),
        core_count: cores,
        ..Default::default()
    }
}

fn whole(f: Option<Figure>) -> u64 {
    match f {
        Some(Figure::Whole(v)) => v,
        _ => panic!("not a whole percentage"),
    }
}

#[test]
fn agx_detection_keys_off_the_io_class_prefix() {
    assert!(is_agx(Some("AGXAcceleratorG13X")));
    assert!(!is_agx(Some("AMDRadeonX6000")));
    assert!(!is_agx(Some("agxaccelerator")));
    assert!(!is_agx(None));
}

#[test]
fn apple_silicon_name_folds_in_soc_and_core_count() {
    let s = snapshot(&agx(Some(38)), Some("Apple M2 Max"), 64 << 30);
    assert_eq!(s.name, "Apple M2 Max (38-core GPU)");
    assert!(s.integrated);
    assert_eq!(s.vram_total_bytes, Some(64 << 30));

    assert_eq!(
        snapshot(&agx(None), Some("Apple M1"), 0).name,
        "Apple M1".to_string()
    );
    assert_eq!(
        snapshot(&agx(Some(8)), None, 0).name,
        "Apple GPU (8-core GPU)"
    );
    assert_eq!(snapshot(&agx(None), None, 0).name, "Apple GPU");
    assert_eq!(
        snapshot(&agx(Some(0)), Some("Apple M1"), 0).name,
        "Apple M1"
    );
}

#[test]
fn discrete_cards_use_io_class_and_their_own_vram() {
    let a = RawAccel {
        io_class: Some("AMDRadeonX6000".to_string()),
        vram_total_mb: Some(8192),
        vram_used_bytes: Some(1024 * 1024 * 1024),
        ..Default::default()
    };
    let s = snapshot(&a, Some("Intel Core i9"), 32 << 30);
    assert_eq!(s.name, "AMDRadeonX6000");
    assert!(!s.integrated);
    assert_eq!(s.vram_total_bytes, Some(8 << 30));
    assert_eq!(s.vram_used_bytes, Some(1 << 30));
    assert_eq!(snapshot(&RawAccel::default(), None, 0).name, "GPU");
    let zero = RawAccel {
        vram_total_mb: Some(0),
        ..Default::default()
    };
    assert_eq!(snapshot(&zero, None, 16 << 30).vram_total_bytes, Some(16 << 30));
}

#[test]
fn utilization_is_clamped_and_negatives_do_not_wrap() {
    let with = |util, used| RawAccel {
        util_pct: Some(util),
        vram_used_bytes: Some(used),
        ..Default::default()
    };
    assert_eq!(whole(snapshot(&with(42, 0), None, 0).utilization_pct), 42);
    assert_eq!(whole(snapshot(&with(140, 0), None, 0).utilization_pct), 100);
    assert_eq!(whole(snapshot(&with(-5, 0), None, 0).utilization_pct), 0);
    assert_eq!(snapshot(&with(0, -1), None, 0).vram_used_bytes, Some(0));
    let s = snapshot(&RawAccel::default(), None, 0);
    assert_eq!(whole(s.utilization_pct), 0);
    assert_eq!(s.vram_used_bytes, Some(0));
}

#[test]
fn vram_total_does_not_overflow_on_a_bogus_mb_count() {
    let a = RawAccel {
        vram_total_mb: Some(i64::MAX),
        ..Default::default()
    };
    assert_eq!(snapshot(&a, None, 0).vram_total_bytes, Some(u64::MAX));
}

fn kext(id: &str) -> RawAccel {
    RawAccel {
        bundle_id: Some(id.to_string()),
        ..Default::default()
    }
}

#[test]
fn driver_line_degrades_one_field_at_a_time() {
    let amd = [kext("com.apple.kext.AMDRadeonX6000")];
    assert_eq!(
        driver_line(&amd, Some("14.5"), Some("23F79")),
        Some("AMDRadeonX6000 · macOS 14.5 (23F79)".to_string())
    );
    assert_eq!(
        driver_line(&amd, Some("15.0"), None),
        Some("AMDRadeonX6000 · macOS 15.0".to_string())
    );
    assert_eq!(
        driver_line(&amd, None, None),
        Some("AMDRadeonX6000".to_string())
    );
    let bare = [RawAccel::default()];
    assert_eq!(
        driver_line(&bare, Some("14.5"), Some("23F79")),
        Some("macOS 14.5 (23F79)".to_string())
    );
    assert_eq!(
        driver_line(&bare, None, Some("23F79")),
        Some("macOS build 23F79".to_string())
    );
    assert_eq!(
        driver_line(&[kext("net.example.MyGPU")], None, None),
        Some("net.example.MyGPU".to_string())
    );
    assert_eq!(driver_line(&[], None, None), None);
    assert_eq!(driver_line(&bare, None, None), None);
    assert_eq!(driver_line(&[kext("   ")], None, None), None);
}

#[test]
fn driver_line_names_every_distinct_kext_once() {
    let mixed = [
        kext("com.apple.driver.AppleIntelKBLGraphics"),
        kext("com.apple.kext.AMDRadeonX6000"),
    ];
    assert_eq!(
        driver_line(&mixed, Some("13.6"), None),
        Some("AppleIntelKBLGraphics+AMDRadeonX6000 · macOS 13.6".to_string())
    );
    let pair = [
        kext("com.apple.kext.AMDRadeonX6000"),
        kext("com.apple.kext.AMDRadeonX6000"),
    ];
    assert_eq!(
        driver_line(&pair, None, None),
        Some("AMDRadeonX6000".to_string())
    );
}

#[test]
fn le_int_decodes_device_tree_blobs() {
    assert_eq!(le_int(&[10]), Some(10));
    assert_eq!(le_int(&[0x26, 0x00]), Some(38));
    assert_eq!(le_int(&[0x26, 0x00, 0x00, 0x00]), Some(38));
    assert_eq!(le_int(&[0xff; 8]), Some(-1));
    assert_eq!(le_int(&[]), None);
    assert_eq!(le_int(&[0; 9]), None);
}
