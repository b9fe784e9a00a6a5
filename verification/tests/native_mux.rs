use tuimux::native_mux::{MuxError, NativeMux, PaneAxis, PaneRect};

fn titles(n: usize) -> Vec<Option<String>> {
    vec![None; n]
}

fn kill(mux: &mut NativeMux, row: usize) -> Result<u32, MuxError> {
    let replacement = if mux.kill_needs_replacement(row) {
        Some(mux.prepare_window(1))
    } else {
        None
    };
    mux.kill_window_by_row(row, replacement)
}

#[test]
fn native_mux_starts_with_one_window() {
    let mux = NativeMux::new();
    let windows = mux.window_infos(&titles(1));

    assert_eq!(windows.len(), 1);
    assert!(windows[0].active);
    assert_eq!(windows[0].name, "shell");
}

#[test]
fn native_mux_rejects_missing_window_rows() {
    let mut mux = NativeMux::new();

    assert!(mux.select_window_by_row(1).is_err());
    assert!(kill(&mut mux, 1).is_err());
    assert_eq!(kill(&mut mux, 1), Err(MuxError::WindowMissing(1)));
    assert_eq!(MuxError::WindowMissing(1).message(), "window row 1 does not exist");
}

#[test]
fn native_mux_reports_single_full_size_pane() {
    let mux = NativeMux::new();

    assert_eq!(mux.window_infos(&titles(1))[0].panes, 1);
    assert_eq!(mux.pane_infos(&titles(1)).len(), 1);
    assert_eq!(mux.active_pane_axis(), PaneAxis::Columns);
    assert!(mux.active_pane_separators(80, 24).is_empty());

    let panes = mux.active_pane_refs(&titles(1), 80, 24);
    assert_eq!(panes.len(), 1);
    assert_eq!(panes[0].index, 1);
    assert!(panes[0].active);
    assert_eq!(panes[0].rect, PaneRect::new(0, 0, 80, 24));
    assert_eq!(Some(panes[0].terminal), mux.active_terminal());
}

#[test]
fn native_mux_can_create_select_and_kill_windows() {
    let mut mux = NativeMux::new();

    assert_eq!(mux.new_window(), 2);
    let windows = mux.window_infos(&titles(2));
    assert_eq!(windows.len(), 2);
    assert!(!windows[0].active);
    assert!(windows[1].active);
    assert_eq!(windows[0].panes, 1);
    assert_eq!(windows[1].panes, 1);

    mux.select_window_by_row(0).unwrap();
    let selected = mux.window_infos(&titles(2));
    assert!(selected[0].active);
    assert!(!selected[1].active);

    assert_eq!(kill(&mut mux, 0).unwrap(), 1);
    let remaining = mux.window_infos(&titles(1));
    assert_eq!(remaining.len(), 1);
    assert_eq!(remaining[0].index, 2);
    assert!(remaining[0].active);
    assert_eq!(remaining[0].panes, 1);
}

#[test]
fn native_mux_replaces_last_window_when_killed() {
    let mut mux = NativeMux::new();
    let first_terminal = mux.active_terminal();

    assert_eq!(kill(&mut mux, 0).unwrap(), 1);
    let windows = mux.window_infos(&titles(1));
    assert_eq!(windows.len(), 1);
    assert_eq!(windows[0].index, 1);
    assert!(windows[0].active);
    assert_eq!(windows[0].panes, 1);
    assert_ne!(mux.active_terminal(), first_terminal);
}

#[test]
fn terminal_titles_name_windows_and_panes() {
    let mut mux = NativeMux::new();
    mux.new_window();
    let windows = mux.window_infos(&vec![None, Some("vim notes".to_string())]);
    assert_eq!(windows[0].name, "shell");
    assert_eq!(windows[1].name, "vim notes");
    let panes = mux.pane_infos(&vec![None]);
    assert_eq!(panes[0].title, "shell-2");
}

#[test]
fn reaping_drops_finished_windows_and_keeps_one() {
    let mut mux = NativeMux::new();
    mux.new_window();
    mux.new_window();
    let finished = vec![false, true, false];
    assert!(!mux.reap_needs_replacement(&finished));
    assert!(mux.reap_finished_windows(&finished, None));
    let windows = mux.window_infos(&titles(2));
    assert_eq!(windows.iter().map(|w| w.index).collect::<Vec<_>>(), vec![1, 3]);

    let all = vec![true, true];
    assert!(mux.reap_needs_replacement(&all));
    let replacement = Some(mux.prepare_window(1));
    assert!(mux.reap_finished_windows(&all, replacement));
    let windows = mux.window_infos(&titles(1));
    assert_eq!(windows.len(), 1);
    assert_eq!(windows[0].index, 1);
    assert!(windows[0].active);
}

#[test]
fn selecting_a_missing_pane_is_refused() {
    let mut mux = NativeMux::new();
    assert!(mux.select_pane_by_row(0).is_ok());
    assert_eq!(mux.select_pane_by_row(1), Err(MuxError::PaneMissing(1)));
}

#[test]
fn a_window_is_finished_when_all_its_panes_are() {
    let mux = NativeMux::new();
    assert_eq!(mux.window_finished_flags(&vec![vec![true]]), vec![true]);
    assert_eq!(mux.window_finished_flags(&vec![vec![false]]), vec![false]);
}
