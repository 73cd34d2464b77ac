use gpur::app::history::Sample;
use gpur::app::{App, AppOptions, Focus, GraphStyle, InputMode, PendingKill, Rect};
use gpur::backend::{BackendSource, GpuSnapshot};
use gpur::order::Real;
use gpur::ui::card::SessionFigures;
use gpur::ui::layout::{centered, proc_pane_height, split_card, CardsView, CARD_MIN};
use gpur::ui::screen::{confirm_popup, help_popup};

fn app_of(cards: usize) -> App {
    let mut app = App::new(
        AppOptions {
            tick_ms: 1000,
            tick_explicit: false,
            history_len: 60,
            no_splash: true,
            graph_style: GraphStyle::Braille,
            source: BackendSource::Live,
            backend_name: "test".to_string(),
            backend_local: true,
        },
        0,
    );
    let gpus: Vec<GpuSnapshot> = (0..cards)
        .map(|i| GpuSnapshot {
            name: format!("card {i}"),
            device_id: Some(format!("id-{i}")),
            ..Default::default()
        })
        .collect();
    let none = Sample {
        util: None,
        mem: None,
        power: None,
        temp: None,
    };
    app.poll(Ok((gpus, vec![none; cards])));
    app
}

fn rect(x: u16, y: u16, width: u16, height: u16) -> Rect {
    Rect {
        x,
        y,
        width,
        height,
    }
}

#[test]
fn the_screen_is_a_header_two_panes_and_a_footer() {
    for height in 2..60 {
        let mut app = app_of(1);
        let s = app.lay_out_screen(rect(3, 5, 80, height));
        assert_eq!(s.header, rect(3, 5, 80, 1));
        assert_eq!(s.footer, rect(3, 5 + height - 1, 80, 1));
        let procs = proc_pane_height(height - 2, 0);
        assert_eq!(app.gpus_rect, rect(3, 6, 80, height - 2 - procs));
        assert_eq!(app.proc_rect, rect(3, 6 + height - 2 - procs, 80, procs));
        assert_eq!(app.history_need, 160);
    }
}

#[test]
fn a_screen_too_low_for_its_lines_stays_inside() {
    for height in 0..2 {
        let mut app = app_of(1);
        let s = app.lay_out_screen(rect(0, 7, 10, height));
        for r in [s.header, s.footer, app.gpus_rect, app.proc_rect] {
            assert_eq!((r.x, r.width), (0, 10));
            assert!(r.y >= 7 && r.y + r.height <= 7 + height, "{r:?}");
        }
    }
}

#[test]
fn cards_that_fit_share_the_pane_evenly() {
    for cards in 1..7 {
        for height in (CARD_MIN * cards as u16)..80 {
            let mut app = app_of(cards);
            assert!(matches!(app.lay_out_cards(rect(1, 2, 40, height)), CardsView::All));
            assert_eq!(app.card_rects.len(), cards);
            let mut y = 2;
            for (k, (r, i)) in app.card_rects.iter().enumerate() {
                assert_eq!((*i, r.x, r.width, r.y), (k, 1, 40, y));
                y += r.height;
                let share = height as usize / cards;
                assert!((share..=share + 1).contains(&(r.height as usize)), "{r:?}");
            }
            assert_eq!(y, 2 + height);
        }
    }
}

#[test]
fn folded_cards_take_one_row() {
    let mut app = app_of(3);
    app.toggle_fold(1);
    assert!(matches!(app.lay_out_cards(rect(0, 0, 40, 31)), CardsView::All));
    let heights: Vec<u16> = app.card_rects.iter().map(|(r, _)| r.height).collect();
    assert_eq!(heights, [15, 1, 15]);
    for i in [0, 2] {
        app.toggle_fold(i);
    }
    assert!(matches!(app.lay_out_cards(rect(0, 4, 40, 31)), CardsView::All));
    let rows: Vec<(u16, u16)> = app.card_rects.iter().map(|(r, _)| (r.y, r.height)).collect();
    assert_eq!(rows, [(4, 1), (5, 1), (6, 1)]);
}

#[test]
fn an_overflowing_list_scrolls_to_the_selected_card() {
    let mut app = app_of(6);
    app.selected = 4;
    match app.lay_out_cards(rect(0, 0, 40, 20)) {
        CardsView::Window { positions, shown } => {
            assert_eq!((positions, shown), (5, 2));
        }
        other => panic!("{other:?}"),
    }
    assert_eq!(app.gpu_scroll, 3);
    let drawn: Vec<usize> = app.card_rects.iter().map(|(_, i)| *i).collect();
    assert_eq!(drawn, [3, 4]);
    assert!(app.card_rects.iter().all(|(r, _)| r.width == 39));

    app.selected = 0;
    app.lay_out_cards(rect(0, 0, 40, 20));
    assert_eq!(app.gpu_scroll, 0);
    assert!(matches!(app_of(0).lay_out_cards(rect(0, 0, 40, 20)), CardsView::NoCards));
}

#[test]
fn a_card_has_a_session_row_only_where_it_has_one() {
    let heights = |with| -> Vec<u16> {
        split_card(rect(0, 0, 30, 10), with).iter().map(|r| r.height).collect()
    };
    assert_eq!(heights(true), [1, 1, 6, 1, 1]);
    assert_eq!(heights(false), [1, 1, 7, 0, 1]);
}

#[test]
fn popups_are_centered_and_stay_on_screen() {
    assert_eq!(centered(rect(0, 0, 80, 24), 20, 4), rect(30, 10, 20, 4));
    assert_eq!(centered(rect(2, 3, 10, 5), 20, 9), rect(2, 3, 10, 5));

    let mut app = app_of(1);
    assert!(confirm_popup(&app, rect(0, 0, 80, 24)).is_none());
    assert!(help_popup(&app, rect(0, 0, 80, 24)).is_none());
    app.focus = Focus::Procs;
    app.input_mode = InputMode::Confirm;
    app.pending_kill = Some(PendingKill {
        pid: 42,
        start_time: 0,
        force: true,
        command: "renderer".to_string(),
        start_ticks: None,
    });
    let p = confirm_popup(&app, rect(0, 0, 80, 24)).expect("the dialog is open");
    assert_eq!(p.rect.width, "send SIGKILL to 42?".len() as u16 + 6);
    assert_eq!((p.rect.height, p.lines.len()), (5, 3));
    app.show_help = true;
    let p = help_popup(&app, rect(0, 0, 200, 100)).expect("the overlay is open");
    assert_eq!(p.rect.height as usize, p.lines.len() + 2);
}

#[test]
fn a_rectangle_holds_its_first_cell_and_not_the_one_past_its_last() {
    let r = rect(2, 3, 4, 5);
    assert!(r.contains(2, 3) && r.contains(5, 7));
    assert!(!r.contains(6, 3) && !r.contains(2, 8) && !r.contains(1, 3));
    assert!(!rect(2, 3, 0, 5).contains(2, 3));
    let far = rect(65530, 0, 100, 1);
    assert!(far.contains(65534, 0) && !far.contains(65535, 0));
}

fn figures() -> Option<SessionFigures> {
    Some(SessionFigures {
        max_util_pct: Some(Real { bits: 87f64.to_bits() }),
        max_temp_c: None,
        max_power_w: None,
        avg_util_pct: None,
        avg_power_w: None,
    })
}

#[test]
fn a_card_gives_a_row_to_the_session_only_with_room_to_spare() {
    let app = app_of(2);
    let tall = app.card_view(1, rect(0, 0, 42, 9), &figures(), 1);
    assert!(!tall.selected);
    assert_eq!(tall.title, "1·card 1");
    let body = tall.body.unwrap();
    assert!(body.session.is_some());
    assert_eq!(body.session_row.height, 1);
    assert_eq!((body.util_row.y, body.mem_row.y), (1, 2));
    assert_eq!((body.wave_row.y, body.wave_row.height), (3, 3));
    assert_eq!((body.session_row.y, body.info_row.y), (6, 7));
    assert_eq!(body.mem_value, " n/a ");
    assert!(body.waves);

    let low = app.card_view(0, rect(0, 0, 42, 8), &figures(), 1);
    assert!(low.selected);
    let body = low.body.unwrap();
    assert!(body.session.is_none());
    assert_eq!(body.session_row.height, 0);
    assert!(app.card_view(0, rect(0, 0, 42, 9), &None, 1).body.unwrap().session.is_none());
}

#[test]
fn a_card_without_room_has_a_border_alone() {
    let app = app_of(1);
    assert!(app.card_view(0, rect(0, 0, 42, 2), &figures(), 1).body.is_none());
    assert!(app.card_view(0, rect(0, 0, 42, 1), &figures(), 1).body.is_none());
    // Two meters, the readouts, and one row over: too few for the waveform.
    let body = app.card_view(0, rect(0, 0, 42, 6), &figures(), 1).body.unwrap();
    assert_eq!(body.wave_row.height, 1);
    assert!(!body.waves);
}
