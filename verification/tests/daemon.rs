use tuimux::daemon::{handle_request, DaemonStep, TerminalJob};
use tuimux::mux_backend::{ends_daemon, expect_ok, into_response, sanitize, KeyInput, KeyInputCode, Request, Response};
use tuimux::native_mux::NativeMux;
use tuimux::terminal::SelectionRange;

#[test]
fn session_names_are_made_safe_for_socket_files() {
    assert_eq!(sanitize("tuimux"), "tuimux");
    assert_eq!(sanitize("my session/../x"), "mysessionx");
    assert_eq!(sanitize("../"), "session");
    assert_eq!(sanitize(""), "session");
    assert_eq!(sanitize("abcdefghijklmnopqrstuvwxyz0123"), "abcdefghijklmnopqrstuvwx");
    assert_eq!(sanitize("é-ok_1"), "-ok_1");
}

#[test]
fn only_done_satisfies_requests_without_a_result() {
    assert!(expect_ok(Response::Done).is_ok());
    assert!(matches!(expect_ok(Response::Index(3)), Err(Response::Index(3))));
    assert!(matches!(into_response(Err("boom".to_string())), Response::Error(e) if e == "boom"));
    assert!(matches!(into_response(Ok(Response::Rows(2))), Response::Rows(2)));
}

#[test]
fn shutdown_ends_the_daemon_only_when_carried_out() {
    assert!(ends_daemon(&Request::Shutdown, &Response::Done));
    assert!(!ends_daemon(&Request::Shutdown, &Response::Error("no".to_string())));
    assert!(!ends_daemon(&Request::SelectWindowByRow { row: 0 }, &Response::Done));
}

#[test]
fn window_requests_change_the_window_list() {
    let mut mux = NativeMux::new();
    let titles = |n: usize| vec![None; n];

    match handle_request(&mut mux, Request::NewWindow { width: 80, height: 24 }) {
        DaemonStep::OpenWindow { window, width, height } => {
            assert_eq!((window.index, width, height), (2, 80, 24));
            assert_eq!(window.panes.len(), 1);
            mux.push_window(window);
        }
        other => panic!("unexpected step {other:?}"),
    }
    assert_eq!(mux.window_infos(&titles(2)).len(), 2);

    match handle_request(&mut mux, Request::SelectWindowByRow { row: 5 }) {
        DaemonStep::Reply(Response::Error(message)) => assert_eq!(message, "window row 5 does not exist"),
        other => panic!("unexpected step {other:?}"),
    }
    assert!(matches!(handle_request(&mut mux, Request::SelectWindowByRow { row: 0 }), DaemonStep::Reply(Response::Done)));
    assert!(mux.window_infos(&titles(2))[0].active);

    let first_terminal = mux.window_pane_terminals(0)[0];
    match handle_request(&mut mux, Request::KillWindowByRow { row: 0, width: 80, height: 24 }) {
        DaemonStep::CloseWindow { index, closed } => {
            assert_eq!(index, 1);
            assert_eq!(closed, vec![first_terminal]);
        }
        other => panic!("unexpected step {other:?}"),
    }
    assert_eq!(mux.window_infos(&titles(1))[0].index, 2);

    match handle_request(&mut mux, Request::KillWindowByRow { row: 0, width: 100, height: 30 }) {
        DaemonStep::ReplaceLastWindow { row, replacement, width, height } => {
            assert_eq!((row, replacement.index, width, height), (0, 1, 100, 30));
        }
        other => panic!("unexpected step {other:?}"),
    }
    assert_eq!(mux.window_count(), 1);
}

#[test]
fn terminal_requests_go_to_the_active_terminal() {
    let mut mux = NativeMux::new();
    let active = mux.active_terminal().unwrap();
    match handle_request(&mut mux, Request::SendKey { key: KeyInput::new(KeyInputCode::Enter, 0) }) {
        DaemonStep::Terminal { terminal, job: TerminalJob::Key(key) } => {
            assert_eq!(terminal, active);
            assert_eq!(key, KeyInput::new(KeyInputCode::Enter, 0));
        }
        other => panic!("unexpected step {other:?}"),
    }
    let selection = SelectionRange::new(0, 0, 1, 2);
    assert!(matches!(
        handle_request(&mut mux, Request::SelectedText { selection }),
        DaemonStep::Terminal { job: TerminalJob::SelectedText(s), .. } if s == selection
    ));
    assert!(matches!(
        handle_request(&mut mux, Request::ScrollActivePane { lines: -3 }),
        DaemonStep::Terminal { job: TerminalJob::Scroll(-3), .. }
    ));
    assert!(matches!(
        handle_request(&mut mux, Request::Snapshot { width: 10, height: 5, selection: None }),
        DaemonStep::Snapshot { width: 10, height: 5, selection: None }
    ));
    match handle_request(&mut mux, Request::SelectPaneByRow { row: 2 }) {
        DaemonStep::Reply(Response::Error(message)) => assert_eq!(message, "pane row 2 does not exist"),
        other => panic!("unexpected step {other:?}"),
    }
    assert!(matches!(handle_request(&mut mux, Request::Shutdown), DaemonStep::Reply(Response::Done)));
}
