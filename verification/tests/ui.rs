use tuimux::ui::cursor_position;
use tuimux::mux_backend::{
    KeyInput, KeyInputCode, MouseInput, MouseInputButton, MouseInputKind, PaneSnapshot, MOD_ALT, MOD_CONTROL, MOD_SHIFT,
    MOD_SUPER,
};
use tuimux::native_mux::{Pane, PaneAxis, PaneRect, Window};
use tuimux::terminal::SelectionRange;
use tuimux::ui::{
    check_regions, context_menu_rect, fit_and_pad_text, fit_bar_text, hit_test, menu_item_regions, pane_rects,
    rail_window_regions, sidebar_window_regions, split_lengths,
    terminal_cell_at_pane, terminal_cell_for_pane, terminal_mode_layout, navigation_layout, rail_sections, sidebar_sections, window_row_texts, ContextMenuAction, Hotspot,
    Rect, Regions, CONTEXT_MENU_HEIGHT, CONTEXT_MENU_WIDTH,
};
use tuimux::ui_model::{
    is_copy_shortcut, is_paste_shortcut, is_plain_control_c, terminal_line_boundary_key, PendingMouseDown,
    UiAction, UiKey, UiModel, UiMouse, UiNote, UiOp, NO_MODIFIERS,
};

fn key(code: KeyInputCode, modifiers: u8) -> UiKey {
    UiKey::new(code, modifiers)
}

fn mouse(kind: MouseInputKind, column: u16, row: u16, modifiers: u8) -> UiMouse {
    UiMouse { kind, column, row, modifiers }
}

fn window(index: u32, active: bool) -> Window {
    Window { index, name: format!("shell-{index}"), active, panes: 1 }
}

fn pane_snapshot(active: bool, mouse_protocol_active: bool, height: u16) -> PaneSnapshot {
    PaneSnapshot {
        index: 1,
        active,
        rect: PaneRect::new(0, 0, 10, height),
        rows: Vec::new(),
        cursor: None,
        hide_cursor: false,
        mouse_protocol_active,
    }
}

const LEFT_DOWN: MouseInputKind = MouseInputKind::Down(MouseInputButton::Left);

#[test]
fn hit_test_prefers_window_close_x_over_window_row() {
    let mut regions = Regions::new();
    regions.windows[0] = Rect::new(10, 5, 20, 1);
    regions.window_close[0] = Rect::new(27, 5, 3, 1);
    regions.window_count = 1;

    assert_eq!(hit_test(27, 5, &regions), Some(Hotspot::WindowClose(0)));
    assert_eq!(hit_test(12, 5, &regions), Some(Hotspot::Window(0)));
}

#[test]
fn hit_test_only_exposes_windows_not_deprecated_pane_controls() {
    let regions = Regions::new();

    assert_eq!(hit_test(21, 7, &regions), None);
    assert_eq!(hit_test(21, 8, &regions), None);
}

#[test]
fn hit_test_gives_the_menu_priority() {
    let mut regions = Regions::new();
    regions.main_pane = Rect::new(0, 0, 40, 10);
    regions.context_menu_items[0] = Rect::new(2, 2, 14, 1);
    regions.context_menu_items[1] = Rect::new(2, 3, 14, 1);
    regions.context_menu_items[2] = Rect::new(2, 4, 14, 1);
    regions.context_menu_count = 3;
    assert_eq!(hit_test(3, 3, &regions), Some(Hotspot::ContextMenu(ContextMenuAction::Paste)));
    assert_eq!(hit_test(30, 3, &regions), Some(Hotspot::MainPane));
}

#[test]
fn context_menu_rect_clamps_to_root() {
    let rect = context_menu_rect(Rect::new(0, 0, 20, 8), (19, 7));

    assert_eq!(rect, Rect::new(6, 3, CONTEXT_MENU_WIDTH, CONTEXT_MENU_HEIGHT));
}

#[test]
fn context_menu_rect_shrinks_on_a_tiny_screen() {
    let rect = context_menu_rect(Rect::new(0, 0, 10, 3), (4, 1));
    assert_eq!(rect, Rect::new(0, 0, 10, 3));
}

#[test]
fn right_click_request_opens_context_menu() {
    let mut state = UiModel::new();

    let actions = state.mouse_event(mouse(MouseInputKind::Down(MouseInputButton::Right), 7, 3, 0));

    assert!(actions.is_empty());
    assert_eq!(state.context_menu.map(|menu| menu.anchor), Some((7, 3)));
    assert_eq!(state.hover, Some(Hotspot::ContextMenu(ContextMenuAction::Copy)));
}

#[test]
fn window_row_line_renders_osc_title_name() {
    let active = Window { index: 1, name: "OSC_TITLE".to_string(), active: true, panes: 1 };
    let texts = window_row_texts("▸", &active, 26);
    let text: String = texts.concat();

    assert!(text.contains("1: OSC_TITLE"), "{text:?}");
    assert_eq!(text.chars().count(), 26);
    assert_eq!(texts.last().unwrap(), " X ");
}

#[test]
fn narrow_window_rows_hold_only_the_close_button() {
    let w = window(3, false);
    assert_eq!(window_row_texts(" ", &w, 3), vec![" X ".to_string()]);
    assert_eq!(window_row_texts(" ", &w, 7), vec!["  3:".to_string(), " X ".to_string()]);
}

#[test]
fn terminal_shortcuts_support_host_copy_paste_variants() {
    assert!(is_copy_shortcut(key(KeyInputCode::Char('c'), MOD_CONTROL)));
    assert!(is_copy_shortcut(key(KeyInputCode::Char('c'), MOD_SUPER | MOD_SHIFT)));
    assert!(is_copy_shortcut(key(KeyInputCode::Char('c'), MOD_CONTROL | MOD_SHIFT)));
    assert!(is_paste_shortcut(key(KeyInputCode::Char('v'), MOD_CONTROL)));
    assert!(is_paste_shortcut(key(KeyInputCode::Char('v'), MOD_SUPER | MOD_SHIFT)));
    assert!(is_paste_shortcut(key(KeyInputCode::Char('v'), MOD_CONTROL | MOD_SHIFT)));
    assert!(!is_copy_shortcut(key(KeyInputCode::Char('c'), NO_MODIFIERS)));
    assert!(!is_copy_shortcut(key(KeyInputCode::Char('c'), MOD_SUPER)));
    assert!(!is_paste_shortcut(key(KeyInputCode::Char('v'), MOD_SUPER)));
    assert!(is_copy_shortcut(key(KeyInputCode::Char('C'), MOD_CONTROL | MOD_SHIFT)));
}

#[test]
fn only_plain_control_c_falls_back_to_child_interrupt() {
    assert!(is_plain_control_c(key(KeyInputCode::Char('c'), MOD_CONTROL)));
    assert!(!is_plain_control_c(key(KeyInputCode::Char('c'), MOD_CONTROL | MOD_SHIFT)));
    assert!(!is_plain_control_c(key(KeyInputCode::Char('c'), MOD_SUPER)));
}

#[test]
fn macos_command_arrows_map_to_terminal_home_end() {
    assert_eq!(
        terminal_line_boundary_key(key(KeyInputCode::Left, MOD_SUPER | MOD_SHIFT)).map(|k| (k.code, k.modifiers)),
        Some((Some(KeyInputCode::Home), NO_MODIFIERS))
    );
    assert_eq!(
        terminal_line_boundary_key(key(KeyInputCode::Right, MOD_SUPER | MOD_SHIFT)).map(|k| (k.code, k.modifiers)),
        Some((Some(KeyInputCode::End), NO_MODIFIERS))
    );
    assert!(terminal_line_boundary_key(key(KeyInputCode::Left, MOD_CONTROL)).is_none());
    assert!(terminal_line_boundary_key(key(KeyInputCode::Right, MOD_SUPER)).is_none());
}

#[test]
fn pane_rects_reserve_separator_cells_between_columns() {
    let rects = pane_rects(Rect::new(0, 0, 11, 5), PaneAxis::Columns, 2);

    assert_eq!(rects, vec![Rect::new(0, 0, 5, 5), Rect::new(6, 0, 5, 5)]);
}

#[test]
fn pane_rects_share_rows_and_tile_the_area() {
    let rects = pane_rects(Rect::new(2, 1, 9, 12), PaneAxis::Rows, 3);
    assert_eq!(rects, vec![Rect::new(2, 1, 9, 4), Rect::new(2, 6, 9, 3), Rect::new(2, 10, 9, 3)]);
    assert_eq!(pane_rects(Rect::new(0, 0, 0, 5), PaneAxis::Columns, 2), vec![]);
    assert_eq!(pane_rects(Rect::new(0, 0, 7, 5), PaneAxis::Columns, 1), vec![Rect::new(0, 0, 7, 5)]);
}

#[test]
fn split_lengths_give_the_remainder_to_the_first() {
    assert_eq!(split_lengths(10, 3), vec![4, 3, 3]);
    assert_eq!(split_lengths(2, 4), vec![1, 1, 0, 0]);
    assert_eq!(split_lengths(7, 0), Vec::<u16>::new());
    assert_eq!(split_lengths(65535, 2).iter().map(|&x| x as u32).sum::<u32>(), 65535);
}

#[test]
fn terminal_cell_at_pane_maps_to_local_pane_coordinates() {
    let mut regions = Regions::new();
    regions.terminal_pane_count = 2;
    regions.terminal_panes[0] = Rect::new(0, 0, 5, 5);
    regions.terminal_panes[1] = Rect::new(6, 0, 5, 5);

    assert_eq!(terminal_cell_at_pane(7, 3, &regions), Some((1, 3, 1)));
    assert_eq!(terminal_cell_at_pane(5, 3, &regions), None);
}

#[test]
fn terminal_cell_for_pane_clamps_drag_to_original_pane() {
    let mut regions = Regions::new();
    regions.terminal_pane_count = 2;
    regions.terminal_panes[0] = Rect::new(0, 0, 5, 5);
    regions.terminal_panes[1] = Rect::new(6, 0, 5, 5);

    assert_eq!(terminal_cell_for_pane(9, 6, &regions, 0), Some((4, 4)));
    assert_eq!(terminal_cell_for_pane(9, 6, &regions, 2), None);
}

#[test]
fn regions_check_rejects_rects_that_cannot_be_clamped() {
    let mut regions = Regions::new();
    assert!(check_regions(&regions));
    regions.terminal_body = Rect::new(65535, 0, 1, 1);
    assert!(!check_regions(&regions));
    regions.terminal_body = Rect::new(0, 0, 10, 10);
    regions.window_count = 9;
    assert!(!check_regions(&regions));
}

#[test]
fn mouse_up_keeps_non_empty_selection_but_ends_dragging() {
    let mut state = UiModel::new();

    state.begin_selection(0, 1, 2);
    state.update_selection(1, 5);
    state.finish_selection(1, 6);

    assert_eq!(state.selection_range(), Some(SelectionRange::new(1, 2, 1, 6)));
    let selection = state.selection.expect("selection persists after mouse-up");
    assert_eq!(selection.pane, 0);
    assert!(!selection.dragging);
}

#[test]
fn mouse_up_clears_zero_width_selection() {
    let mut state = UiModel::new();

    state.begin_selection(0, 2, 3);
    state.finish_selection(2, 3);

    assert!(state.selection.is_none());
}

#[test]
fn pending_mouse_tracking_click_becomes_selection_when_dragged() {
    let mut state = UiModel::new();
    state.regions.terminal_body = Rect::new(0, 0, 20, 5);
    state.pending_left_down = Some(PendingMouseDown {
        pane: 0,
        row: 1,
        col: 2,
        modifiers: NO_MODIFIERS,
        child_wants_mouse: true,
    });

    let handled = state.handle_pending_left_down(&mouse(MouseInputKind::Drag(MouseInputButton::Left), 8, 1, 0));

    assert!(handled.is_some());
    assert!(state.pending_left_down.is_none());
    assert_eq!(state.selection_range(), Some(SelectionRange::new(1, 2, 1, 8)));
}

#[test]
fn pending_click_released_is_forwarded_to_the_program() {
    let mut state = UiModel::new();
    state.regions.terminal_body = Rect::new(0, 0, 20, 5);
    state.pending_left_down = Some(PendingMouseDown {
        pane: 0,
        row: 1,
        col: 2,
        modifiers: MOD_ALT,
        child_wants_mouse: true,
    });
    let handled = state.handle_pending_left_down(&mouse(MouseInputKind::Up(MouseInputButton::Left), 30, 1, 0));
    assert_eq!(
        handled,
        Some(vec![
            UiAction::SendMouse(MouseInput::from_parts(LEFT_DOWN, 1, 2, MOD_ALT)),
            UiAction::SendMouse(MouseInput::from_parts(MouseInputKind::Up(MouseInputButton::Left), 1, 19, 0)),
        ])
    );
    assert!(state.pending_left_down.is_none());
    assert!(state.selection.is_none());
}

#[test]
fn terminal_key_input_clears_existing_selection() {
    let mut state = UiModel::new();
    state.begin_selection(0, 0, 0);
    state.finish_selection(0, 4);

    let actions = state.send_terminal_key(key(KeyInputCode::Char('a'), NO_MODIFIERS));

    assert!(state.selection.is_none());
    assert_eq!(actions, vec![UiAction::SendKey(KeyInput::new(KeyInputCode::Char('a'), 0))]);
}

#[test]
fn successful_paste_marks_highlight_pending_until_click_clear() {
    let mut state = UiModel::new();

    let actions = state.send_terminal_paste("pasted text");
    state.report_paste("pasted text", false, Ok(()));

    assert!(state.paste_highlight_pending);
    assert_eq!(
        actions,
        vec![UiAction::SendPaste { text: "pasted text".to_string(), from_clipboard: false }]
    );

    let keys = state.clear_paste_highlight_on_click();

    assert!(!state.paste_highlight_pending);
    assert_eq!(
        keys,
        vec![
            UiAction::SendKey(KeyInput::new(KeyInputCode::Left, 0)),
            UiAction::SendKey(KeyInput::new(KeyInputCode::Right, 0)),
        ]
    );
}

#[test]
fn failed_paste_drops_the_highlight_and_says_why() {
    let mut state = UiModel::new();
    state.send_terminal_paste("x");
    state.report_paste("x", false, Err("terminal is not ready".to_string()));
    assert!(!state.paste_highlight_pending);
    assert_eq!(state.status.as_ref().unwrap().text(), "terminal paste failed: terminal is not ready");
}

#[test]
fn paste_highlight_click_clear_includes_ui_chrome_but_skips_mouse_apps() {
    let mut state = UiModel::new();
    state.paste_highlight_pending = true;
    state.regions.terminal_pane_count = 1;
    state.regions.terminal_panes[0] = Rect::new(0, 0, 10, 5);

    let chrome_click = mouse(LEFT_DOWN, 15, 1, 0);
    assert!(state.should_clear_paste_highlight_for_click(&chrome_click));

    state.terminal_mouse_protocol_active = true;
    let terminal_click = mouse(LEFT_DOWN, 2, 1, 0);
    assert!(!state.should_clear_paste_highlight_for_click(&terminal_click));
}

#[test]
fn raw_bracketed_paste_end_marks_highlight_pending() {
    let mut state = UiModel::new();

    for ch in "\x1b[200~raw text\x1b[201~".chars() {
        let code = if ch == '\x1b' { KeyInputCode::Esc } else { KeyInputCode::Char(ch) };
        state.send_terminal_key(key(code, NO_MODIFIERS));
    }

    assert!(state.paste_highlight_pending);
    state.send_terminal_key(key(KeyInputCode::Char('x'), NO_MODIFIERS));
    assert!(!state.paste_highlight_pending);
}

#[test]
fn copy_shortcut_copies_a_selection_or_reports_none() {
    let mut state = UiModel::new();
    let none = state.send_terminal_key(key(KeyInputCode::Char('c'), MOD_CONTROL | MOD_SHIFT));
    assert!(none.is_empty());
    assert_eq!(state.status, Some(UiNote::NothingSelected));

    let interrupt = state.send_terminal_key(key(KeyInputCode::Char('c'), MOD_CONTROL));
    assert_eq!(interrupt, vec![UiAction::SendKey(KeyInput::new(KeyInputCode::Char('c'), MOD_CONTROL))]);

    state.begin_selection(0, 0, 1);
    state.update_selection(0, 3);
    let copy = state.send_terminal_key(key(KeyInputCode::Char('c'), MOD_CONTROL));
    assert_eq!(
        copy,
        vec![UiAction::CopySelection { range: SelectionRange::new(0, 1, 0, 3), from_menu: false }]
    );
    let next = state.selected_text_ready(Ok("abc".to_string()), false);
    assert_eq!(next, vec![UiAction::CopyText { text: "abc".to_string(), from_menu: false }]);
    state.report_clipboard_copy("abc", false, Ok(()));
    assert_eq!(state.status.as_ref().unwrap().text(), "copied 3 chars");
}

#[test]
fn super_chords_are_ignored_and_paste_shortcut_reads_the_clipboard() {
    let mut state = UiModel::new();
    assert!(state.send_terminal_key(key(KeyInputCode::Char('k'), MOD_SUPER)).is_empty());
    assert_eq!(state.status.as_ref().unwrap().text(), "shortcut ignored");
    assert_eq!(state.send_terminal_key(key(KeyInputCode::Char('v'), MOD_CONTROL)), vec![UiAction::PasteClipboard]);
    assert_eq!(state.clipboard_read(Ok(String::new())), vec![]);
    assert_eq!(state.status.as_ref().unwrap().text(), "clipboard is empty");
    assert_eq!(
        state.clipboard_read(Ok("hello".to_string())),
        vec![UiAction::SendPaste { text: "hello".to_string(), from_clipboard: true }]
    );
    state.report_paste("hello", true, Ok(()));
    assert!(state.paste_highlight_pending);
    assert_eq!(state.status.as_ref().unwrap().text(), "pasted 5 chars");
}

#[test]
fn navigation_keys_drive_windows_and_scrollback() {
    let mut state = UiModel::new();
    state.terminal_mode = false;
    state.windows = vec![window(1, false), window(2, true), window(3, false)];
    state.regions.terminal_body = Rect::new(0, 0, 80, 24);

    assert_eq!(state.key_event(key(KeyInputCode::Right, 0)), vec![UiAction::SelectWindow(2)]);
    assert_eq!(state.key_event(key(KeyInputCode::Up, 0)), vec![UiAction::SelectWindow(0)]);
    assert_eq!(state.key_event(key(KeyInputCode::Char('x'), 0)), vec![UiAction::KillWindow(1)]);
    assert_eq!(state.key_event(key(KeyInputCode::PageUp, 0)), vec![UiAction::Scroll(23)]);
    assert_eq!(state.key_event(key(KeyInputCode::PageDown, 0)), vec![UiAction::Scroll(-23)]);
    assert_eq!(state.key_event(key(KeyInputCode::Home, 0)), vec![UiAction::Scroll(1_000_000)]);
    assert_eq!(state.key_event(key(KeyInputCode::Char('d'), 0)), vec![UiAction::Detach]);
    assert_eq!(state.key_event(key(KeyInputCode::Char('q'), 0)), vec![UiAction::Quit]);
    assert!(state.key_event(key(KeyInputCode::Char('|'), 0)).is_empty());
    assert_eq!(state.status.as_ref().unwrap().text(), "split panes are deprecated; use windows");

    state.terminal_panes = vec![pane_snapshot(false, false, 7), pane_snapshot(true, false, 2)];
    assert_eq!(state.scroll_page_lines(), 1);
}

#[test]
fn window_stepping_wraps_and_needs_two_windows() {
    let mut state = UiModel::new();
    assert!(state.key_event(key(KeyInputCode::Left, MOD_ALT)).is_empty());
    assert_eq!(state.status, Some(UiNote::NoWindows));
    state.windows = vec![window(1, true)];
    assert!(state.key_event(key(KeyInputCode::Right, MOD_ALT)).is_empty());
    assert_eq!(state.status, Some(UiNote::OnlyOneWindow));
    state.windows = vec![window(1, true), window(2, false)];
    assert_eq!(state.key_event(key(KeyInputCode::Left, MOD_ALT)), vec![UiAction::SelectWindow(1)]);
    assert_eq!(state.select_adjacent_window(-5), vec![UiAction::SelectWindow(1)]);
    assert_eq!(state.key_event(key(KeyInputCode::Char('n'), MOD_ALT)), vec![UiAction::NewWindow]);
}

#[test]
fn f12_switches_between_terminal_and_navigation_mode() {
    let mut state = UiModel::new();
    assert!(state.key_event(key(KeyInputCode::F(12), 0)).is_empty());
    assert!(!state.terminal_mode);
    assert_eq!(state.status.as_ref().unwrap().text(), "navigation mode");
    state.key_event(key(KeyInputCode::F(12), 0));
    assert!(state.terminal_mode);
    assert_eq!(state.status.as_ref().unwrap().text(), "terminal mode");
}

#[test]
fn context_menu_keys_move_and_run_entries() {
    let mut state = UiModel::new();
    state.open_context_menu(3, 3);
    state.key_event(key(KeyInputCode::Up, 0));
    assert_eq!(state.context_menu.unwrap().selected, ContextMenuAction::Cancel);
    state.key_event(key(KeyInputCode::Down, 0));
    state.key_event(key(KeyInputCode::Down, 0));
    assert_eq!(state.context_menu.unwrap().selected, ContextMenuAction::Paste);
    assert!(state.key_event(key(KeyInputCode::Char('z'), 0)).is_empty());
    assert!(state.context_menu.is_some());
    let run = state.key_event(key(KeyInputCode::Enter, 0));
    assert_eq!(run, vec![UiAction::PasteClipboard]);
    assert!(state.context_menu.is_none());
    assert_eq!(state.hover, None);

    state.open_context_menu(3, 3);
    assert!(state.key_event(key(KeyInputCode::Char('C'), 0)).is_empty());
    assert_eq!(state.status, Some(UiNote::NothingSelected));
    state.open_context_menu(3, 3);
    state.key_event(key(KeyInputCode::Esc, 0));
    assert!(state.context_menu.is_none());
}

#[test]
fn context_menu_mouse_selects_runs_and_closes() {
    let mut state = UiModel::new();
    state.open_context_menu(2, 2);
    state.regions.context_menu_items[0] = Rect::new(2, 2, 14, 1);
    state.regions.context_menu_items[1] = Rect::new(2, 3, 14, 1);
    state.regions.context_menu_items[2] = Rect::new(2, 4, 14, 1);
    state.regions.context_menu_count = 3;

    state.mouse_event(mouse(MouseInputKind::Moved, 5, 4, 0));
    assert_eq!(state.context_menu.unwrap().selected, ContextMenuAction::Cancel);
    let run = state.mouse_event(mouse(MouseInputKind::Up(MouseInputButton::Left), 5, 4, 0));
    assert!(run.is_empty());
    assert!(state.context_menu.is_none());
    assert_eq!(state.status.as_ref().unwrap().text(), "context menu cancelled");

    state.open_context_menu(2, 2);
    state.mouse_event(mouse(LEFT_DOWN, 30, 20, 0));
    assert!(state.context_menu.is_none());
}

#[test]
fn clicks_on_panes_start_selections_or_are_held_for_mouse_programs() {
    let mut state = UiModel::new();
    state.regions.terminal_pane_count = 2;
    state.regions.terminal_panes[0] = Rect::new(0, 0, 5, 5);
    state.regions.terminal_panes[1] = Rect::new(6, 0, 5, 5);
    state.panes = vec![
        Pane { index: 1, title: "a".to_string(), active: true },
        Pane { index: 2, title: "b".to_string(), active: false },
    ];
    state.terminal_panes = vec![pane_snapshot(true, true, 5), pane_snapshot(false, false, 5)];

    assert!(state.mouse_event(mouse(LEFT_DOWN, 2, 1, 0)).is_empty());
    assert_eq!(
        state.pending_left_down,
        Some(PendingMouseDown { pane: 0, row: 1, col: 2, modifiers: 0, child_wants_mouse: true })
    );

    let press = mouse(LEFT_DOWN, 2, 1, MOD_SHIFT);
    assert!(state.mouse_event(press).is_empty());
    assert!(state.pending_left_down.is_none());
    assert_eq!(state.selection.unwrap().anchor, (1, 2));

    let other = mouse(LEFT_DOWN, 7, 2, 0);
    assert_eq!(state.mouse_event(other), vec![UiAction::SelectPane(1), UiAction::ResumeMouse(other)]);
    state.report_switch(UiOp::SelectPane, Ok(()));
    assert!(state.resume_mouse(other).is_empty());
    assert_eq!(state.selection.unwrap().anchor, (2, 1));
    assert_eq!(state.selection.unwrap().pane, 1);
}

#[test]
fn wheel_scrolls_history_unless_the_program_tracks_the_mouse() {
    let mut state = UiModel::new();
    state.regions.terminal_pane_count = 1;
    state.regions.terminal_panes[0] = Rect::new(0, 0, 10, 5);
    state.panes = vec![Pane { index: 1, title: "a".to_string(), active: true }];
    state.terminal_panes = vec![pane_snapshot(true, false, 5)];
    assert_eq!(state.mouse_event(mouse(MouseInputKind::ScrollUp, 2, 2, 0)), vec![UiAction::Scroll(3)]);
    assert_eq!(state.mouse_event(mouse(MouseInputKind::ScrollDown, 2, 2, 0)), vec![UiAction::Scroll(-3)]);

    state.terminal_panes = vec![pane_snapshot(true, true, 5)];
    assert_eq!(
        state.mouse_event(mouse(MouseInputKind::ScrollUp, 2, 2, MOD_CONTROL)),
        vec![UiAction::SendMouse(MouseInput::from_parts(MouseInputKind::ScrollUp, 2, 2, MOD_CONTROL))]
    );
}

#[test]
fn clicks_on_the_sidebar_act_on_windows() {
    let mut state = UiModel::new();
    state.regions.detach_button = Rect::new(60, 0, 20, 3);
    state.regions.windows[0] = Rect::new(61, 6, 18, 1);
    state.regions.window_close[0] = Rect::new(76, 6, 3, 1);
    state.regions.window_count = 1;
    state.regions.new_window = Rect::new(61, 7, 18, 1);

    assert_eq!(state.mouse_event(mouse(LEFT_DOWN, 77, 6, 0)), vec![UiAction::KillWindow(0)]);
    assert_eq!(state.mouse_event(mouse(LEFT_DOWN, 62, 6, 0)), vec![UiAction::SelectWindow(0)]);
    assert_eq!(state.mouse_event(mouse(LEFT_DOWN, 62, 7, 0)), vec![UiAction::NewWindow]);
    assert_eq!(state.mouse_event(mouse(LEFT_DOWN, 65, 1, 0)), vec![UiAction::Detach]);
    assert!(state.mouse_event(mouse(MouseInputKind::Moved, 62, 7, 0)).is_empty());
    assert_eq!(state.hover, Some(Hotspot::NewWindow));
}

#[test]
fn reports_set_the_status_line() {
    let mut state = UiModel::new();
    state.begin_selection(0, 0, 0);
    state.report_kill_window(Ok(4));
    assert_eq!(state.status.as_ref().unwrap().text(), "killed window 4");
    assert!(state.selection.is_none());
    state.report_scroll(Ok(0));
    assert_eq!(state.status.as_ref().unwrap().text(), "scrollback bottom");
    state.report_scroll(Ok(12));
    assert_eq!(state.status.as_ref().unwrap().text(), "scrollback 12 rows");
    state.report_switch(UiOp::SelectWindow, Err("window row 9 does not exist".to_string()));
    assert_eq!(state.status.as_ref().unwrap().text(), "select-window failed: window row 9 does not exist");
    state.selected_text_ready(Err("gone".to_string()), true);
    assert_eq!(state.status, Some(UiNote::NothingSelected));
    state.selected_text_ready(Err("gone".to_string()), false);
    assert_eq!(state.status.as_ref().unwrap().text(), "copy failed: terminal is not ready");
    state.report_sync_failed("broken pipe");
    assert_eq!(state.terminal_error.as_deref(), Some("native mux backend failed: broken pipe"));
}

#[test]
fn bar_text_is_cut_with_an_ellipsis_and_padded() {
    assert_eq!(fit_bar_text("status", 10), "status");
    assert_eq!(fit_bar_text("a long status", 6), "a lon…");
    assert_eq!(fit_bar_text("abc", 1), " ");
    assert_eq!(fit_and_pad_text("ok", 5), "ok   ");
    assert_eq!(fit_and_pad_text("a long status", 6).chars().count(), 6);
}

#[test]
fn terminal_mode_keeps_a_rail_only_on_wide_screens() {
    let narrow = terminal_mode_layout(Rect::new(0, 0, 99, 30));
    assert_eq!(narrow.terminal_body, Rect::new(0, 0, 99, 30));
    assert!(narrow.side_rail.is_none());
    let short = terminal_mode_layout(Rect::new(0, 0, 140, 7));
    assert!(short.side_rail.is_none());
    let tight = terminal_mode_layout(Rect::new(0, 0, 95, 30));
    assert!(tight.side_rail.is_none());
    let wide = terminal_mode_layout(Rect::new(0, 0, 120, 30));
    assert_eq!(wide.terminal_body, Rect::new(0, 0, 100, 30));
    assert_eq!(wide.side_rail, Some(Rect::new(100, 0, 20, 30)));
    let mid = terminal_mode_layout(Rect::new(0, 0, 97, 30));
    assert!(mid.side_rail.is_none());
    let edge = terminal_mode_layout(Rect::new(0, 0, 100, 8));
    assert_eq!(edge.side_rail, Some(Rect::new(80, 0, 20, 8)));
    let low = terminal_mode_layout(Rect::new(3, 2, 116, 8));
    assert_eq!(low.terminal_body, Rect::new(3, 2, 96, 8));
    assert_eq!(low.side_rail, Some(Rect::new(99, 2, 20, 8)));
}

#[test]
fn status_notes_render_their_text() {
    assert_eq!(UiNote::TerminalModeHint.text(), "terminal mode (F12 returns to navigation)");
    assert_eq!(UiNote::Failed(UiOp::NewWindow, "no pty".to_string()).text(), "new-window failed: no pty");
    assert_eq!(UiNote::Copied(0).text(), "copied 0 chars");
}

#[test]
fn window_lists_place_rows_close_buttons_and_new_row() {
    let rail = rail_window_regions(Rect::new(101, 4, 18, 4), 5);
    assert_eq!(
        rail.rows,
        vec![
            (Rect::new(101, 4, 18, 1), Rect::new(116, 4, 3, 1)),
            (Rect::new(101, 5, 18, 1), Rect::new(116, 5, 3, 1)),
            (Rect::new(101, 6, 18, 1), Rect::new(116, 6, 3, 1)),
        ]
    );
    assert_eq!(rail.new_window, Some(Rect::new(101, 7, 18, 1)));
    let roomy = rail_window_regions(Rect::new(0, 0, 10, 20), 2);
    assert_eq!(roomy.rows.len(), 2);
    assert_eq!(roomy.new_window, Some(Rect::new(0, 2, 10, 1)));
    let flat = rail_window_regions(Rect::new(0, 0, 10, 0), 2);
    assert!(flat.rows.is_empty());
    assert_eq!(flat.new_window, None);

    let side = sidebar_window_regions(Rect::new(54, 5, 26, 19), 10);
    assert_eq!(side.rows.len(), 8);
    assert_eq!(side.rows[0], (Rect::new(55, 6, 24, 1), Rect::new(76, 6, 3, 1)));
    assert_eq!(side.new_window, Some(Rect::new(55, 14, 24, 1)));
    let narrow = sidebar_window_regions(Rect::new(0, 0, 3, 5), 1);
    assert_eq!(narrow.rows[0], (Rect::new(1, 1, 1, 1), Rect::new(1, 1, 1, 1)));
}

#[test]
fn menu_rows_follow_the_space_inside_the_menu() {
    assert_eq!(
        menu_item_regions(Rect::new(7, 4, 12, 3)),
        vec![Rect::new(7, 4, 12, 1), Rect::new(7, 5, 12, 1), Rect::new(7, 6, 12, 1)]
    );
    assert_eq!(menu_item_regions(Rect::new(7, 4, 12, 2)).len(), 2);
    assert!(menu_item_regions(Rect::new(7, 4, 12, 0)).is_empty());
}

#[test]
fn navigation_and_rail_sections_lie_end_to_end() {
    assert_eq!(
        navigation_layout(Rect::new(0, 0, 100, 30)),
        (Rect::new(0, 0, 74, 30), Rect::new(74, 0, 26, 30))
    );
    assert_eq!(
        rail_sections(Rect::new(100, 2, 20, 28)),
        (Rect::new(100, 2, 20, 3), Rect::new(100, 5, 20, 22), Rect::new(100, 27, 20, 3))
    );
    assert_eq!(
        sidebar_sections(Rect::new(74, 0, 26, 30)),
        (Rect::new(74, 0, 26, 3), Rect::new(74, 3, 26, 2), Rect::new(74, 5, 26, 25))
    );
}

#[test]
fn successful_switches_ask_for_a_fresh_snapshot() {
    let mut state = UiModel::new();
    state.regions.terminal_body = Rect::new(0, 0, 90, 30);
    assert_eq!(state.report_switch(UiOp::NewWindow, Ok(())), vec![UiAction::Refresh { width: 90, height: 30 }]);
    assert_eq!(state.report_kill_window(Ok(2)), vec![UiAction::Refresh { width: 90, height: 30 }]);
    assert_eq!(state.report_scroll(Ok(5)), vec![UiAction::Refresh { width: 90, height: 30 }]);
    assert!(state.report_scroll(Err("gone".to_string())).is_empty());
    assert!(state.report_switch(UiOp::SelectWindow, Err("gone".to_string())).is_empty());
    state.regions.terminal_body = Rect::empty();
    assert_eq!(state.report_kill_window(Ok(2)), vec![UiAction::Refresh { width: 1, height: 1 }]);
}

#[test]
fn cursor_is_kept_inside_its_area() {
    let area = Rect::new(2, 1, 10, 5);
    assert_eq!(cursor_position(area, Some((0, 0))), Some((2, 1)));
    assert_eq!(cursor_position(area, Some((3, 4))), Some((6, 4)));
    assert_eq!(cursor_position(area, Some((40, 40))), Some((11, 5)));
    assert_eq!(cursor_position(area, None), None);
    assert_eq!(cursor_position(Rect::new(2, 1, 0, 5), Some((0, 0))), None);
}
