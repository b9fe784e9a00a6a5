use std::path::Path;

use tuimux::preview::{fit, render, PreviewData};

#[test]
fn fit_pads_and_truncates() {
    assert_eq!(fit("ab", 4), "ab  ");
    assert_eq!(fit("abcd", 4), "abcd");
    assert_eq!(fit("abcdef", 4), "abc…");
    assert_eq!(fit("x", 0), "");
}

#[test]
fn render_produces_rectangular_output_with_simplified_sidebar() {
    let data = PreviewData::default();
    let out = render(Path::new("."), &data, 80, 24);
    let lines: Vec<&str> = out.lines().take(24).collect();
    let widths: Vec<usize> = lines.iter().map(|l| l.chars().count()).collect();
    assert!(
        widths.iter().all(|&x| x == widths[0]),
        "rows are not rectangular: {widths:?}"
    );

    assert!(
        out.contains("[ Detach ]"),
        "detach should render as a button label only"
    );
    assert!(out.contains("WINDOWS"));
    assert!(
        out.contains(" X "),
        "window rows should expose a right-side close button"
    );
    assert!(
        !out.contains("Session"),
        "preview should not expose sessions"
    );

    assert!(
        !out.contains("MAIN AREA"),
        "main pane border/header should not expose internal wording"
    );
    assert!(
        !out.contains("mock"),
        "preview should not call the main pane a mock"
    );
    assert!(
        !out.contains(" tuimux ·"),
        "top header/status row was removed"
    );

    assert!(
        !out.contains("[ dev ]"),
        "sidebar button label should not be dev"
    );
    assert!(
        !out.contains("Session picker"),
        "dialog header/title was removed"
    );
    assert!(
        !out.contains("┌──── Sessions"),
        "dialog border title was removed"
    );
    assert!(!out.contains("EXPLORER"), "left file explorer was removed");
    assert!(!out.contains("PROCS"), "right PROCS panel was removed");
    assert!(!out.contains("Detach Alt-d"), "bottom menu bar was removed");
    assert!(!out.contains("pane 0"), "split pane sample was removed");
    assert!(
        !out.contains("drag border"),
        "preview should not advertise split resizing"
    );
    assert!(
        !out.contains("session:"),
        "session label prefix was removed"
    );
    assert!(!out.contains('▾'), "dropdown glyph was removed");
}

#[test]
fn preview_is_rectangular_at_odd_sizes() {
    let data = PreviewData::default();
    // Below 60 columns or 16 rows the preview keeps its minimum size.
    for (w, h, rows, cols) in [(1usize, 1usize, 16usize, 60usize), (20, 3, 16, 60), (61, 17, 17, 61), (120, 40, 40, 120)] {
        let out = render(Path::new("."), &data, w, h);
        let lines: Vec<&str> = out.lines().collect();
        assert_eq!(lines.len(), rows, "{w}x{h}");
        assert!(lines.iter().all(|l| l.chars().count() == cols), "{w}x{h}");
    }
}

#[test]
fn preview_text_is_a_grid_of_rows() {
    let data = PreviewData::default();
    let out = render(Path::new("/a"), &data, 70, 20);
    assert_eq!(out, render(Path::new("/elsewhere"), &data, 70, 20));
    assert!(!out.ends_with('\n'));
    let lines: Vec<&str> = out.split('\n').collect();
    assert_eq!(lines.len(), 20);
    assert!(lines.iter().all(|l| l.chars().count() == 70));
}
