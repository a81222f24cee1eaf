use wit::canvas::OverlayCanvas;

const C1: (u8, u8, u8) = (80, 200, 255);
const C2: (u8, u8, u8) = (255, 100, 100);

fn cell(c: (u8, u8, u8), ch: char) -> String {
    format!("\x1b[38;2;{};{};{}m{}\x1b[0m", c.0, c.1, c.2, ch)
}

#[test]
fn empty_canvas_renders_spaces() {
    let c = OverlayCanvas::new();
    assert_eq!(c.render(&[C1], 3, 2), vec!["   ".to_string(), "   ".to_string()]);
    assert_eq!(c.render(&[], 2, 1), vec!["  ".to_string()]);
}

#[test]
fn single_dot_positions() {
    let mut c = OverlayCanvas::new();
    c.set(0, 0, 0);
    assert_eq!(c.render(&[C1], 1, 1), vec![cell(C1, '\u{2801}')]);
    let mut c = OverlayCanvas::new();
    c.set(1, 3, 0);
    assert_eq!(c.render(&[C1], 1, 1), vec![cell(C1, '\u{2880}')]);
    let mut c = OverlayCanvas::new();
    c.set(3, 5, 0);
    assert_eq!(c.render(&[C1], 2, 2), vec!["  ".to_string(), format!(" {}", cell(C1, '\u{2810}'))]);
}

#[test]
fn negative_coordinates_are_ignored() {
    let mut c = OverlayCanvas::new();
    c.set(-1, 0, 0);
    c.set(0, -4, 0);
    assert_eq!(c.render(&[C1], 1, 1), vec![" ".to_string()]);
}

#[test]
fn setting_twice_changes_nothing() {
    let mut a = OverlayCanvas::new();
    a.set(0, 1, 0);
    let mut b = OverlayCanvas::new();
    b.set(0, 1, 0);
    b.set(0, 1, 0);
    assert_eq!(a.render(&[C1], 1, 1), b.render(&[C1], 1, 1));
}

#[test]
fn horizontal_line_fills_cells() {
    let mut c = OverlayCanvas::new();
    c.line(0, 0, 3, 0, 0);
    assert_eq!(c.render(&[C1], 2, 1), vec![format!("{}{}", cell(C1, '\u{2809}'), cell(C1, '\u{2809}'))]);
}

#[test]
fn vertical_line_fills_column() {
    let mut c = OverlayCanvas::new();
    c.line(0, 3, 0, 0, 0);
    assert_eq!(c.render(&[C1], 1, 1), vec![cell(C1, '\u{2847}')]);
}

#[test]
fn diagonal_line() {
    let mut c = OverlayCanvas::new();
    c.line(0, 0, 1, 1, 0);
    assert_eq!(c.render(&[C1], 1, 1), vec![cell(C1, '\u{2811}')]);
}

#[test]
fn overlapping_series_take_majority_color() {
    let mut c = OverlayCanvas::new();
    c.set(0, 0, 0);
    c.set(0, 1, 1);
    c.set(1, 1, 1);
    assert_eq!(c.render(&[C1, C2], 1, 1), vec![cell(C2, '\u{2813}')]);
}

#[test]
fn ties_go_to_the_later_series() {
    let mut c = OverlayCanvas::new();
    c.set(0, 0, 0);
    c.set(1, 0, 1);
    assert_eq!(c.render(&[C1, C2], 1, 1), vec![cell(C2, '\u{2809}')]);
}

#[test]
fn colors_wrap_around() {
    let mut c = OverlayCanvas::new();
    c.set(0, 0, 2);
    assert_eq!(c.render(&[C1, C2], 1, 1), vec![cell(C1, '\u{2801}')]);
}

#[test]
fn far_cells_truncate_to_sixteen_bits() {
    let mut c = OverlayCanvas::new();
    c.set(131072, 0, 0);
    assert_eq!(c.render(&[C1], 1, 1), vec![cell(C1, '\u{2801}')]);
}

#[test]
fn long_line_reaches_both_ends() {
    let mut c = OverlayCanvas::new();
    c.line(0, 0, 7, 11, 0);
    let rows = c.render(&[C1], 4, 3);
    assert!(rows[0].starts_with("\x1b["));
    assert!(rows[2].ends_with("\x1b[0m"));
    assert!(rows[2].starts_with("  "));
}
