//! The multiplexer daemon's handling of one request. The window list is
//! changed here; what needs a terminal (starting or stopping one, or asking
//! the active one) comes back as a step for the binary, which owns the
//! terminals and sends the answer.

use vstd::prelude::*;

use crate::mux_backend::{KeyInput, MouseInput, Request, Response};
use crate::native_mux::{MuxError, NativeMux, NativeWindow, max_index, min_nat, mux_wf, spec_error_message};
use crate::terminal::SelectionRange;

verus! {

/// Work for the active terminal.
#[derive(Debug, Clone)]
pub enum TerminalJob {
    /// Answer `Text` with the selected text.
    SelectedText(SelectionRange),
    /// Answer `Done` once the key is written.
    Key(KeyInput),
    /// Answer `Done` once the text is pasted.
    Paste(String),
    /// Answer `Done` once the mouse event is written.
    Mouse(MouseInput),
    /// Answer `Rows` with the rows of history in view afterwards.
    Scroll(i32),
}

/// What the binary does to answer a request.
#[derive(Debug)]
pub enum DaemonStep {
    /// Answer with this.
    Reply(Response),
    /// Resize the active terminals to `width` x `height`, read all terminal
    /// output, and answer with a snapshot.
    Snapshot { width: u16, height: u16, selection: Option<SelectionRange> },
    /// Start the terminal of this new window; if it starts, add the window
    /// (`push_window`) and answer `Index` with its number.
    OpenWindow { window: NativeWindow, width: u16, height: u16 },
    /// Start the terminal of this replacement for the last window; if it
    /// starts, close window `row` with it in its place (`kill_window_by_row`),
    /// stop the closed window's terminals and answer `Index`.
    ReplaceLastWindow { row: usize, replacement: NativeWindow, width: u16, height: u16 },
    /// Window `index` is closed: stop these terminals and answer `Index`.
    CloseWindow { index: u32, closed: Vec<u64> },
    /// Give this job to terminal `terminal` and answer from its result.
    Terminal { terminal: u64, job: TerminalJob },
}

/// The answer for a refused window or pane request.
pub open spec fn refusal(r: Response, e: MuxError) -> bool {
    r matches Response::Error(msg) && msg@ == spec_error_message(e)
}

/// Handles one request against the window list.
pub fn handle_request(mux: &mut NativeMux, request: Request) -> (step: DaemonStep)
    requires
        mux_wf(old(mux)@),
        max_index(old(mux)@.windows) < u32::MAX,
        old(mux)@.next_terminal_id < u64::MAX - 1,
    ensures
        mux_wf(final(mux)@),
        match request {
            Request::Snapshot { width, height, selection } => {
                &&& final(mux)@ == old(mux)@
                &&& step == (DaemonStep::Snapshot { width, height, selection })
            },
            Request::SelectWindowByRow { row } => {
                &&& final(mux)@.windows == old(mux)@.windows
                &&& row < old(mux)@.windows.len() ==> final(mux)@.active == row && step == DaemonStep::Reply(Response::Done)
                &&& row >= old(mux)@.windows.len() ==> final(mux)@ == old(mux)@
                &&& row >= old(mux)@.windows.len() ==> (step matches DaemonStep::Reply(r) && refusal(r, MuxError::WindowMissing(row)))
            },
            Request::SelectPaneByRow { row } => {
                &&& final(mux)@.active == old(mux)@.active
                &&& final(mux)@.next_terminal_id == old(mux)@.next_terminal_id
                &&& row < old(mux)@.windows[old(mux)@.active as int].panes@.len() ==> step == DaemonStep::Reply(Response::Done)
                    && final(mux)@.windows == old(mux)@.windows.update(
                        old(mux)@.active as int,
                        (NativeWindow { active_pane: row, ..old(mux)@.windows[old(mux)@.active as int] }),
                    )
                &&& row >= old(mux)@.windows[old(mux)@.active as int].panes@.len() ==> final(mux)@ == old(mux)@
                &&& row >= old(mux)@.windows[old(mux)@.active as int].panes@.len() ==> (step matches DaemonStep::Reply(r)
                    && refusal(r, MuxError::PaneMissing(row)))
            },
            Request::NewWindow { width, height } => {
                &&& final(mux)@.windows == old(mux)@.windows
                &&& final(mux)@.active == old(mux)@.active
                &&& final(mux)@.next_terminal_id == old(mux)@.next_terminal_id + 1
                &&& step matches DaemonStep::OpenWindow { window, width: w, height: h }
                &&& w == width && h == height
                &&& window.index == max_index(old(mux)@.windows) + 1
                &&& window.panes@.len() == 1
                &&& window.panes@[0].terminal == old(mux)@.next_terminal_id
            },
            Request::KillWindowByRow { row, width, height } => {
                &&& row >= old(mux)@.windows.len() ==> final(mux)@ == old(mux)@
                &&& row >= old(mux)@.windows.len() ==> (step matches DaemonStep::Reply(r) && refusal(r, MuxError::WindowMissing(row)))
                &&& row < old(mux)@.windows.len() && old(mux)@.windows.len() == 1 ==> {
                    &&& final(mux)@.windows == old(mux)@.windows
                    &&& step matches DaemonStep::ReplaceLastWindow { row: r, replacement, width: w, height: h }
                    &&& r == row && w == width && h == height
                    &&& replacement.index == 1
                    &&& replacement.panes@.len() == 1
                    &&& replacement.panes@[0].terminal == old(mux)@.next_terminal_id
                }
                &&& row < old(mux)@.windows.len() && old(mux)@.windows.len() > 1 ==> {
                    &&& final(mux)@.windows == old(mux)@.windows.remove(row as int)
                    &&& final(mux)@.active == min_nat(old(mux)@.active, (old(mux)@.windows.len() - 2) as nat)
                    &&& final(mux)@.next_terminal_id == old(mux)@.next_terminal_id
                    &&& step matches DaemonStep::CloseWindow { index, closed }
                    &&& index == old(mux)@.windows[row as int].index
                    &&& closed@ == old(mux)@.windows[row as int].panes@.map_values(|p: crate::native_mux::NativePane| p.terminal)
                }
            },
            Request::SelectedText { selection } => {
                &&& final(mux)@ == old(mux)@
                &&& step matches DaemonStep::Terminal { terminal, job: TerminalJob::SelectedText(s) }
                &&& s == selection && Some(terminal) == active_terminal_of(old(mux))
            },
            Request::SendKey { key } => {
                &&& final(mux)@ == old(mux)@
                &&& step matches DaemonStep::Terminal { terminal, job: TerminalJob::Key(k) }
                &&& k == key && Some(terminal) == active_terminal_of(old(mux))
            },
            Request::SendPaste { text } => {
                &&& final(mux)@ == old(mux)@
                &&& step matches DaemonStep::Terminal { terminal, job: TerminalJob::Paste(t) }
                &&& t == text && Some(terminal) == active_terminal_of(old(mux))
            },
            Request::SendMouse { mouse } => {
                &&& final(mux)@ == old(mux)@
                &&& step matches DaemonStep::Terminal { terminal, job: TerminalJob::Mouse(m) }
                &&& m == mouse && Some(terminal) == active_terminal_of(old(mux))
            },
            Request::ScrollActivePane { lines } => {
                &&& final(mux)@ == old(mux)@
                &&& step matches DaemonStep::Terminal { terminal, job: TerminalJob::Scroll(l) }
                &&& l == lines && Some(terminal) == active_terminal_of(old(mux))
            },
            Request::Shutdown => final(mux)@ == old(mux)@ && step == DaemonStep::Reply(Response::Done),
        },
{
    match request {
        Request::Snapshot { width, height, selection } => DaemonStep::Snapshot { width, height, selection },
        Request::SelectWindowByRow { row } => match mux.select_window_by_row(row) {
            Ok(()) => DaemonStep::Reply(Response::Done),
            Err(e) => DaemonStep::Reply(Response::Error(e.message())),
        },
        Request::SelectPaneByRow { row } => match mux.select_pane_by_row(row) {
            Ok(()) => DaemonStep::Reply(Response::Done),
            Err(e) => DaemonStep::Reply(Response::Error(e.message())),
        },
        Request::NewWindow { width, height } => {
            let index = mux.next_window_index();
            let window = mux.prepare_window(index);
            DaemonStep::OpenWindow { window, width, height }
        },
        Request::KillWindowByRow { row, width, height } => {
            if row >= mux.window_count() {
                return DaemonStep::Reply(Response::Error(MuxError::WindowMissing(row).message()));
            }
            if mux.kill_needs_replacement(row) {
                let replacement = mux.prepare_window(1);
                return DaemonStep::ReplaceLastWindow { row, replacement, width, height };
            }
            let closed = mux.window_pane_terminals(row);
            match mux.kill_window_by_row(row, None) {
                Ok(index) => DaemonStep::CloseWindow { index, closed },
                Err(e) => DaemonStep::Reply(Response::Error(e.message())),
            }
        },
        Request::SelectedText { selection } => {
            let terminal = active_terminal_id(mux);
            DaemonStep::Terminal { terminal, job: TerminalJob::SelectedText(selection) }
        },
        Request::SendKey { key } => {
            let terminal = active_terminal_id(mux);
            DaemonStep::Terminal { terminal, job: TerminalJob::Key(key) }
        },
        Request::SendPaste { text } => {
            let terminal = active_terminal_id(mux);
            DaemonStep::Terminal { terminal, job: TerminalJob::Paste(text) }
        },
        Request::SendMouse { mouse } => {
            let terminal = active_terminal_id(mux);
            DaemonStep::Terminal { terminal, job: TerminalJob::Mouse(mouse) }
        },
        Request::ScrollActivePane { lines } => {
            let terminal = active_terminal_id(mux);
            DaemonStep::Terminal { terminal, job: TerminalJob::Scroll(lines) }
        },
        Request::Shutdown => DaemonStep::Reply(Response::Done),
    }
}

/// The terminal of the active pane of the active window.
pub open spec fn active_terminal_of(mux: &NativeMux) -> Option<u64> {
    let w = mux@.windows[mux@.active as int];
    Some(w.panes@[w.active_pane as int].terminal)
}

fn active_terminal_id(mux: &NativeMux) -> (t: u64)
    requires
        mux_wf(mux@),
    ensures
        Some(t) == active_terminal_of(mux),
{
    match mux.active_terminal() {
        Some(t) => t,
        None => 0,
    }
}

} // verus!
