use gpur::backend::replay::{BoundedLines, LineStep, LogRecord, ReplayBackend};
use gpur::backend::{GpuProcess, GpuSnapshot};

/// The lines that a reader with a buffer of `chunk` bytes finds.
fn lines(data: &str, cap: usize, chunk: usize) -> Vec<String> {
    let bytes = data.as_bytes();
    let mut reader = BoundedLines::new(cap);
    let mut out = Vec::new();
    let mut start = 0;
    let mut end = chunk.min(bytes.len());
    loop {
        let (used, step) = reader.step(&bytes[start..end]);
        start += used;
        if start == end {
            end = (start + chunk).min(bytes.len());
        }
        match step {
            LineStep::Line(l) => out.push(String::from_utf8(l).unwrap()),
            LineStep::More => {}
            LineStep::End => return out,
        }
    }
}

#[test]
fn bounded_lines_drops_oversized_lines_and_keeps_the_rest() {
    let data = "123456789\n12345678\nabc\n123456789012345\nno-eol";
    assert_eq!(lines(data, 8, 4), vec!["12345678", "abc", "no-eol"]);
}

#[test]
fn lines_do_not_depend_on_the_buffer() {
    let data = "a\n\nbcd\nefghijklm\nn\n";
    for chunk in 1..12 {
        assert_eq!(lines(data, 4, chunk), ["a", "", "bcd", "n"], "chunks of {chunk}");
    }
    assert!(lines("", 4, 3).is_empty());
    assert!(lines("too long", 4, 3).is_empty());
}

/// A record with these cards, and a row per card index given.
fn record(cards: &[&str], rows: &[usize]) -> LogRecord {
    LogRecord {
        backend: None,
        driver: None,
        gpus: cards
            .iter()
            .map(|n| GpuSnapshot {
                name: n.to_string(),
                ..Default::default()
            })
            .collect(),
        processes: rows
            .iter()
            .enumerate()
            .map(|(i, gpu)| GpuProcess {
                pid: i as u32 + 1,
                gpu_index: *gpu,
                ..Default::default()
            })
            .collect(),
    }
}

#[test]
fn recorded_attribution_survives_playback() {
    let mut r = record(&["card0"], &[0]);
    r.backend = Some("nvml".to_string());
    r.driver = Some("550.1".to_string());
    r.processes[0].container = Some("docker:abcdef123456".to_string());
    let b = ReplayBackend::new(r);
    assert_eq!(b.driver_info().as_deref(), Some("nvml · 550.1"));
    assert_eq!(
        b.processes()[0].container.as_deref(),
        Some("docker:abcdef123456")
    );
    assert_eq!(b.name(), "replay");
    assert!(!b.can_signal());
}

#[test]
fn rows_naming_a_card_outside_the_recorded_frame_are_dropped() {
    let mut b = ReplayBackend::new(record(&["card0", "card1"], &[0, 1, 7]));
    assert_eq!(b.poll(None).len(), 2);
    let pids: Vec<u32> = b.processes().iter().map(|p| p.pid).collect();
    assert_eq!(pids, vec![1, 2]);
}

#[test]
fn the_first_poll_returns_the_preloaded_record() {
    let mut b = ReplayBackend::new(record(&["first"], &[]));
    assert!(!b.wants_record());
    assert_eq!(b.poll(None)[0].name, "first");
    assert!(b.wants_record());
    assert_eq!(b.poll(Some(record(&["second"], &[])))[0].name, "second");
    assert_eq!(b.poll(None)[0].name, "second");
    assert!(!b.wants_record(), "the recording is over");
    assert_eq!(b.poll(None)[0].name, "second");
}

#[test]
fn recorded_cards_without_an_identity_go_by_their_place() {
    let mut r = record(&["a", "b"], &[]);
    r.gpus[0].device_id = Some("GPU-1".to_string());
    let mut b = ReplayBackend::new(r);
    let ids: Vec<Option<String>> = b.poll(None).into_iter().map(|g| g.device_id).collect();
    assert_eq!(ids, [Some("GPU-1".to_string()), Some("replay:1".to_string())]);
}

#[test]
fn legacy_records_without_attribution_still_load() {
    let b = ReplayBackend::new(record(&[], &[]));
    assert_eq!(b.driver_info(), None);
}
