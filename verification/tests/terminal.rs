use tuimux::terminal::{row_padding, TerminalSpan, TerminalStyle};
use tuimux::mux_backend::{KeyInput, KeyInputCode, MouseInputButton, MouseInputKind, MOD_ALT, MOD_CONTROL, MOD_SHIFT};
use tuimux::terminal::{
    key_to_bytes, mouse_event_to_bytes, normalize_terminal_input, osc52_clipboard_response, paste_bytes, sanitize_window_title, scroll_target,
    selector_targets_system_clipboard, truncate_utf8_bytes, MouseProtocolEncoding, MouseProtocolMode, SelectionRange,
    TerminalCallbacks,
};

fn key(code: KeyInputCode, modifiers: u8) -> KeyInput {
    KeyInput::new(code, modifiers)
}

#[test]
fn terminal_key_encoding_supports_application_cursor_and_function_keys() {
    assert_eq!(key_to_bytes(key(KeyInputCode::Up, 0), false), Some(b"\x1b[A".to_vec()));
    assert_eq!(key_to_bytes(key(KeyInputCode::Up, 0), true), Some(b"\x1bOA".to_vec()));
    assert_eq!(key_to_bytes(key(KeyInputCode::Left, MOD_CONTROL), true), Some(b"\x1b[1;5D".to_vec()));
    assert_eq!(key_to_bytes(key(KeyInputCode::Home, 0), false), Some(b"\x1bOH".to_vec()));
    assert_eq!(key_to_bytes(key(KeyInputCode::End, 0), false), Some(b"\x1bOF".to_vec()));
    assert_eq!(key_to_bytes(key(KeyInputCode::Home, MOD_CONTROL), false), Some(b"\x1b[1;5H".to_vec()));
    assert_eq!(key_to_bytes(key(KeyInputCode::F(1), 0), false), Some(b"\x1bOP".to_vec()));
    assert_eq!(key_to_bytes(key(KeyInputCode::F(5), MOD_SHIFT), false), Some(b"\x1b[15;2~".to_vec()));
}

#[test]
fn terminal_key_encoding_supports_shell_editing_shortcuts() {
    assert_eq!(key_to_bytes(key(KeyInputCode::Backspace, 0), false), Some(b"\x7f".to_vec()));
    assert_eq!(key_to_bytes(key(KeyInputCode::Backspace, MOD_ALT), false), Some(b"\x1b\x7f".to_vec()));
    assert_eq!(key_to_bytes(key(KeyInputCode::Backspace, MOD_CONTROL), false), Some(vec![0x17]));
    assert_eq!(key_to_bytes(key(KeyInputCode::Enter, MOD_ALT), false), Some(b"\x1b\r".to_vec()));
}

#[test]
fn terminal_key_encoding_supports_control_punctuation() {
    assert_eq!(key_to_bytes(key(KeyInputCode::Char('/'), MOD_CONTROL), false), Some(vec![0x1f]));
    assert_eq!(key_to_bytes(key(KeyInputCode::Char('6'), MOD_CONTROL), false), Some(vec![0x1e]));
    assert_eq!(key_to_bytes(key(KeyInputCode::Char('8'), MOD_CONTROL), false), Some(vec![0x7f]));
}

#[test]
fn terminal_mouse_encoding_reports_sgr_press_release_drag_and_wheel() {
    assert_eq!(
        mouse_event_to_bytes(
            MouseInputKind::Down(MouseInputButton::Left),
            4,
            9,
            0,
            MouseProtocolMode::PressRelease,
            MouseProtocolEncoding::Sgr,
        ),
        Some(b"\x1b[<0;10;5M".to_vec())
    );
    assert_eq!(
        mouse_event_to_bytes(
            MouseInputKind::Up(MouseInputButton::Left),
            4,
            9,
            0,
            MouseProtocolMode::PressRelease,
            MouseProtocolEncoding::Sgr,
        ),
        Some(b"\x1b[<0;10;5m".to_vec())
    );
    assert_eq!(
        mouse_event_to_bytes(
            MouseInputKind::Drag(MouseInputButton::Right),
            0,
            0,
            MOD_CONTROL,
            MouseProtocolMode::ButtonMotion,
            MouseProtocolEncoding::Sgr,
        ),
        Some(b"\x1b[<50;1;1M".to_vec())
    );
    assert_eq!(
        mouse_event_to_bytes(
            MouseInputKind::ScrollDown,
            2,
            3,
            MOD_SHIFT,
            MouseProtocolMode::Press,
            MouseProtocolEncoding::Sgr,
        ),
        Some(b"\x1b[<69;4;3M".to_vec())
    );
    assert_eq!(
        mouse_event_to_bytes(
            MouseInputKind::Drag(MouseInputButton::Left),
            1,
            2,
            MOD_SHIFT,
            MouseProtocolMode::ButtonMotion,
            MouseProtocolEncoding::Sgr,
        ),
        Some(b"\x1b[<36;3;2M".to_vec())
    );
}

#[test]
fn mouse_reports_follow_the_requested_mode_and_encoding() {
    assert_eq!(
        mouse_event_to_bytes(MouseInputKind::Moved, 0, 0, 0, MouseProtocolMode::ButtonMotion, MouseProtocolEncoding::Sgr),
        None
    );
    assert_eq!(
        mouse_event_to_bytes(MouseInputKind::Moved, 0, 0, 0, MouseProtocolMode::AnyMotion, MouseProtocolEncoding::Sgr),
        Some(b"\x1b[<35;1;1M".to_vec())
    );
    assert_eq!(
        mouse_event_to_bytes(
            MouseInputKind::Up(MouseInputButton::Left),
            0,
            0,
            0,
            MouseProtocolMode::Press,
            MouseProtocolEncoding::Sgr,
        ),
        None
    );
    assert_eq!(
        mouse_event_to_bytes(
            MouseInputKind::Down(MouseInputButton::Left),
            4,
            9,
            0,
            MouseProtocolMode::PressRelease,
            MouseProtocolEncoding::Default,
        ),
        Some(vec![0x1b, b'[', b'M', 32, 32 + 10, 32 + 5])
    );
}

#[test]
fn terminal_input_normalizes_hvp_cursor_position() {
    let mut pending = Vec::new();
    let bytes = normalize_terminal_input(b"\x1b[2;3fX", &mut pending);
    assert_eq!(bytes, b"\x1b[2;3HX");
    assert!(pending.is_empty());
}

#[test]
fn terminal_input_keeps_incomplete_csi_between_chunks() {
    let mut pending = Vec::new();
    let first = normalize_terminal_input(b"\x1b[2;3", &mut pending);
    assert!(first.is_empty());
    assert_eq!(pending, b"\x1b[2;3");

    let second = normalize_terminal_input(b"fX", &mut pending);
    assert_eq!(second, b"\x1b[2;3HX");
    assert!(pending.is_empty());
}

#[test]
fn terminal_input_leaves_other_csi_sequences_unchanged() {
    let mut pending = Vec::new();
    assert_eq!(
        normalize_terminal_input(b"\x1b[?25l\x1b[31mred", &mut pending),
        b"\x1b[?25l\x1b[31mred"
    );
    assert!(pending.is_empty());
}

#[test]
fn normalizing_in_chunks_matches_normalizing_at_once() {
    let input: &[u8] = b"ab\x1b[10;20fcd\x1b[5;6Hef\x1b[1;1f";
    let mut whole_pending = Vec::new();
    let whole = normalize_terminal_input(input, &mut whole_pending);
    for split in 0..=input.len() {
        let mut pending = Vec::new();
        let mut out = normalize_terminal_input(&input[..split], &mut pending);
        out.extend(normalize_terminal_input(&input[split..], &mut pending));
        assert_eq!(out, whole, "split at {split}");
        assert_eq!(pending, whole_pending, "split at {split}");
    }
}

#[test]
fn terminal_callbacks_track_osc_window_titles() {
    let mut callbacks = TerminalCallbacks::new();
    callbacks.set_window_title(b"BUILD WATCH");
    assert_eq!(callbacks.title(), Some("BUILD WATCH"));

    let mut icon = TerminalCallbacks::new();
    icon.set_window_icon_name(b"ICON NAME");
    assert_eq!(icon.title(), Some("ICON NAME"));
}

#[test]
fn terminal_callbacks_accept_osc52_clipboard_copy() {
    let mut callbacks = TerminalCallbacks::new();
    callbacks.copy_to_clipboard(b"c", b"Q09QWSBUQVJHRVQ=");

    assert_eq!(callbacks.take_clipboard_copy(), Some("COPY TARGET".to_string()));
    assert_eq!(callbacks.take_clipboard_copy(), None);
}

#[test]
fn terminal_callbacks_accept_osc52_clipboard_paste_query() {
    let mut callbacks = TerminalCallbacks::new();
    callbacks.paste_from_clipboard(b"c");

    assert_eq!(callbacks.take_clipboard_paste(), Some(b"c".to_vec()));
    assert_eq!(callbacks.take_clipboard_paste(), None);
}

#[test]
fn osc52_clipboard_response_encodes_clipboard_text() {
    assert_eq!(
        osc52_clipboard_response(b"c", "PASTE TARGET"),
        b"\x1b]52;c;UEFTVEUgVEFSR0VU\x07".to_vec()
    );
}

#[test]
fn osc52_copy_rejects_bad_base64_and_other_selections() {
    let mut callbacks = TerminalCallbacks::new();
    callbacks.copy_to_clipboard(b"c", b"***");
    assert_eq!(callbacks.take_clipboard_copy(), None);
    callbacks.copy_to_clipboard(b"p", b"Q09QWSBUQVJHRVQ=");
    assert_eq!(callbacks.take_clipboard_copy(), None);
    assert!(selector_targets_system_clipboard(b""));
    assert!(selector_targets_system_clipboard(b"pc"));
    assert!(!selector_targets_system_clipboard(b"p"));
}

#[test]
fn window_titles_drop_control_characters_and_blank_titles() {
    assert_eq!(sanitize_window_title(b"  a\x07b\tc  "), Some("abc".to_string()));
    assert_eq!(sanitize_window_title(b" \x01 "), None);
    assert_eq!(sanitize_window_title(b"bad \xff byte"), Some("bad \u{fffd} byte".to_string()));
    let long = vec![b'x'; 300];
    assert_eq!(sanitize_window_title(&long).unwrap().chars().count(), 120);
}

#[test]
fn utf8_truncation_stops_at_a_character_boundary() {
    assert_eq!(truncate_utf8_bytes("héllo", 2), "h");
    assert_eq!(truncate_utf8_bytes("héllo", 3), "hé");
    assert_eq!(truncate_utf8_bytes("abc", 10), "abc");
}

#[test]
fn selection_ranges_normalize_and_contain_cells() {
    let r = SelectionRange::new(3, 4, 1, 2).normalized();
    assert_eq!(r, SelectionRange::new(1, 2, 3, 4));
    assert!(r.contains_cell(2, 0));
    assert!(r.contains_cell(1, 2));
    assert!(!r.contains_cell(1, 1));
    assert!(r.contains_cell(3, 4));
    assert!(!r.contains_cell(3, 5));
}

#[test]
fn utf8_mouse_reports_encode_large_coordinates_as_characters() {
    assert_eq!(
        mouse_event_to_bytes(
            MouseInputKind::Down(MouseInputButton::Left),
            0,
            200,
            0,
            MouseProtocolMode::Press,
            MouseProtocolEncoding::Utf8,
        ),
        Some(vec![0x1b, b'[', b'M', 32, 0xc3, 0xa9, 33])
    );
    // A row whose report value would be a surrogate cannot be encoded.
    assert_eq!(
        mouse_event_to_bytes(
            MouseInputKind::Down(MouseInputButton::Left),
            0xd800 - 33,
            0,
            0,
            MouseProtocolMode::Press,
            MouseProtocolEncoding::Utf8,
        ),
        None
    );
}

#[test]
fn paste_is_wrapped_only_in_bracketed_mode() {
    assert_eq!(paste_bytes("hi é", false), "hi é".as_bytes().to_vec());
    assert_eq!(paste_bytes("hi é", true), b"\x1b[200~hi \xc3\xa9\x1b[201~".to_vec());
    assert_eq!(paste_bytes("", true), b"\x1b[200~\x1b[201~".to_vec());
}

#[test]
fn scrolling_moves_through_history_and_stops_at_its_ends() {
    assert_eq!(scroll_target(10, 0), 0);
    assert_eq!(scroll_target(10, 3), 13);
    assert_eq!(scroll_target(10, -3), 7);
    assert_eq!(scroll_target(2, -3), 0);
    assert_eq!(scroll_target(0, i32::MIN), 0);
    assert_eq!(scroll_target(5, 1_000_000), usize::MAX);
    assert_eq!(scroll_target(usize::MAX - 1, 3), usize::MAX);
}

#[test]
fn normalizing_changes_only_hvp_finals() {
    let input: &[u8] = b"a\x1b[1;1fb\x1bcf\x1b[5";
    let mut pending = Vec::new();
    let mut out = normalize_terminal_input(input, &mut pending);
    assert_eq!(pending, b"\x1b[5".to_vec());
    out.extend_from_slice(&pending);
    assert_eq!(out.len(), input.len());
    for (k, (&o, &d)) in out.iter().zip(input).enumerate() {
        assert!(o == d || (d == b'f' && o == b'H'), "{k}");
    }
    assert_eq!(out, b"a\x1b[1;1Hb\x1bcf\x1b[5".to_vec());
}

#[test]
fn rows_are_padded_by_display_width() {
    let span = |t: &str| TerminalSpan { text: t.to_string(), style: TerminalStyle::default() };
    assert_eq!(row_padding(&vec![span("한")], 4), 2);
    assert_eq!(row_padding(&vec![span("ab"), span("c")], 5), 2);
    assert_eq!(row_padding(&vec![span("abcdef")], 4), 0);
    assert_eq!(row_padding(&vec![], 3), 3);
}
