use gpur::app::Rect;
use gpur::splash::{art_bounds, art_dims, build_path, render, PaintedCell, ART};
use gpur::theme::{ColorMode, Paint, UiTheme};

#[test]
fn const_art_bounds_agree_with_the_runtime_dimensions() {
    assert_eq!(art_bounds(ART), art_dims(ART));
}

#[test]
fn build_path_coordinates_still_name_their_own_cells_after_the_u8_cast() {
    let grid: Vec<Vec<char>> = ART.lines().map(|l| l.chars().collect()).collect();
    let path = build_path(ART).expect("the banner fits");

    for &(r, c, ch) in &path {
        assert_eq!(
            grid.get(r as usize).and_then(|l| l.get(c as usize)),
            Some(&ch)
        );
    }

    let glyphs = grid
        .iter()
        .flatten()
        .filter(|ch| !ch.is_whitespace())
        .count();
    assert_eq!(path.len(), glyphs);
}

const SMALL: &str = "ab\n c\n";

fn area(x: u16, y: u16, width: u16, height: u16) -> Rect {
    Rect { x, y, width, height }
}

fn places(cells: &[PaintedCell]) -> Vec<(u16, u16, char)> {
    cells.iter().map(|c| (c.x, c.y, c.ch)).collect()
}

#[test]
fn a_frame_is_the_banner_then_the_trail_then_the_cursor() {
    let t = UiTheme::built_in(ColorMode::Truecolor);
    let path = build_path(SMALL).unwrap();
    assert_eq!(path, [(0, 0, 'a'), (0, 1, 'b'), (1, 1, 'c')]);
    // Two columns of ten, and two rows with four kept free of twelve.
    let view = render(SMALL, &path, 4, area(100, 50, 10, 12), &t).unwrap();
    let (art, sweep) = view.cells.split_at(4);
    assert_eq!(
        places(art),
        [(104, 53, 'a'), (105, 53, 'b'), (104, 54, ' '), (105, 54, 'c')]
    );
    assert!(art.iter().all(|c| c.style.fg == Some(t.accent) && !c.style.bold));
    // Tick four stands on the second cell; the trail goes round behind it, and
    // a place before the start of the path counts as its first.
    let chars: String = sweep.iter().map(|c| c.ch).collect();
    assert_eq!(chars, "aaabcab");
    assert_eq!(places(&sweep[6..]), [(105, 53, 'b')]);
    assert!(sweep[6].style.bold && sweep[6].style.fg == Some(t.fg));
    let ramp: Vec<Option<Paint>> = sweep[..6].iter().map(|c| c.style.fg).collect();
    assert_eq!(ramp[5], Some(Paint::Rgb(0xe5, 0xe9, 0xf0)));
    assert_eq!(ramp[4], Some(Paint::Rgb(0xa0, 0xa8, 0xb8)));
    assert_eq!(ramp[3], Some(Paint::Rgb(0x60, 0x68, 0x78)));
    assert_eq!(ramp[2], Some(Paint::Rgb(0x38, 0x40, 0x50)));
    assert_eq!(ramp[1], Some(Paint::Rgb(0x20, 0x26, 0x32)));
    assert_eq!(ramp[0], Some(Paint::Rgb(0x10, 0x14, 0x1c)));
    assert_eq!(view.version_row, Some(area(100, 56, 10, 1)));
}

#[test]
fn the_cursor_walks_the_path() {
    let t = UiTheme::built_in(ColorMode::Mono);
    let path = build_path(ART).unwrap();
    let n = path.len() as u64;
    for tick in [0, 1, 7, n - 1, n, 3 * n + 2] {
        let view = render(ART, &path, tick, area(0, 0, 200, 60), &t).unwrap();
        let at = path[(tick % n) as usize];
        let last = view.cells.last().unwrap();
        assert_eq!(last.ch, at.2);
        let (rows, cols) = art_dims(ART);
        assert_eq!(last.x as usize, (200 - cols) / 2 + at.1 as usize);
        assert_eq!(last.y as usize, (60 - rows - 4) / 2 + at.0 as usize);
    }
}

#[test]
fn frames_stay_in_their_area() {
    let t = UiTheme::built_in(ColorMode::Ansi16);
    let path = build_path(ART).unwrap();
    let view = render(ART, &path, 9, area(3, 4, 5, 3), &t).unwrap();
    assert!(!view.cells.is_empty());
    for c in &view.cells {
        assert!((3..8).contains(&c.x) && (4..7).contains(&c.y));
    }
    assert_eq!(view.version_row, None);
    assert!(render(SMALL, &Vec::new(), 1, area(0, 0, 0, 0), &t).unwrap().cells.is_empty());
    assert!(render(&"x".repeat(256), &path, 0, area(0, 0, 9, 9), &t).is_none());
}
