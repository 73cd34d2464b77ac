use gpur::keys::{binds, footer_hints, help_rows, DIGITS_FOOTER};

#[test]
fn footer_advertises_help_and_stays_one_line() {
    let f = footer_hints();
    assert!(f.contains("? help"), "help overlay must be discoverable");
    assert!(!f.contains('\n'));
    assert!(f.chars().count() <= 100, "footer too long: {}", f.len());
}

#[test]
fn footer_chunks_come_from_binds() {
    for b in &binds() {
        if let Some(s) = b.footer {
            assert!(
                b.chord.starts_with('<') || s.starts_with(b.chord),
                "footer chunk {s:?} does not lead with its chord {:?}",
                b.chord
            );
            assert!(footer_hints().contains(s), "footer dropped {s:?}");
        }
    }
    let footer = footer_hints();
    for chunk in footer.split("  ").map(str::trim) {
        assert!(
            chunk == DIGITS_FOOTER || binds().iter().any(|b| b.footer == Some(chunk)),
            "footer chunk {chunk:?} has no binding"
        );
    }
}

#[test]
fn help_rows_fold_aliases_and_cover_untried_keys() {
    let rows = help_rows();
    let quit = rows.iter().find(|(_, d)| *d == "quit").unwrap();
    assert_eq!(quit.0, "q <Esc> <C-c>");
    for chord in ["0-9", "y", "wheel/click", "?"] {
        assert!(
            rows.iter().any(|(k, _)| k.split(' ').any(|c| c == chord)),
            "help overlay missing {chord}"
        );
    }
}

#[test]
fn pausing_is_named_by_its_key() {
    let rows = help_rows();
    let row = |d: &str| rows.iter().find(|(_, desc)| *desc == d).unwrap().0.clone();
    assert_eq!(row("pause/resume polling"), "p <Space>");
    assert_eq!(row("focus process list"), "P");
    let footer = footer_hints();
    for chunk in ["p pause", "P procs"] {
        assert!(footer.split("  ").any(|c| c.trim() == chunk), "{footer:?}");
    }
}

#[test]
fn no_chord_is_bound_twice() {
    let all = binds();
    for (i, b) in all.iter().enumerate() {
        assert!(!all[..i].iter().any(|a| a.chord == b.chord), "{:?}", b.chord);
        assert!(b.chord.parse::<u8>().is_err(), "the digits are taken");
    }
}
