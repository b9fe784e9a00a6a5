//! The boundary between the UI and the multiplexer: plain-value key and
//! mouse inputs that cross it, and the snapshots that come back.

use vstd::prelude::*;

use crate::native_mux::{Pane, PaneAxis, PaneRect, PaneSeparator, Window};
use crate::terminal::{SelectionRange, TerminalSpan};

verus! {

/// Modifier bit for Shift.
pub const MOD_SHIFT: u8 = 1;

/// Modifier bit for Control.
pub const MOD_CONTROL: u8 = 2;

/// Modifier bit for Alt.
pub const MOD_ALT: u8 = 4;

/// Modifier bit for Super (Cmd/Win).
pub const MOD_SUPER: u8 = 8;

/// Whether the modifier bits `mods` include `bit`.
pub open spec fn has_mod(mods: u8, bit: u8) -> bool {
    mods & bit != 0
}

/// A key, without its modifiers.
#[derive(Debug, Clone, Copy, PartialEq, Eq, Structural)]
pub enum KeyInputCode {
    Backspace,
    Enter,
    Left,
    Right,
    Up,
    Down,
    Home,
    End,
    PageUp,
    PageDown,
    Tab,
    BackTab,
    Delete,
    Insert,
    F(u8),
    Char(char),
    Null,
    Esc,
}

/// A key press with its modifier bits (`MOD_SHIFT`, `MOD_CONTROL`,
/// `MOD_ALT`, `MOD_SUPER`).
#[derive(Debug, Clone, Copy, PartialEq, Eq, Structural)]
pub struct KeyInput {
    pub code: KeyInputCode,
    pub modifiers: u8,
}

impl KeyInput {
    pub fn new(code: KeyInputCode, modifiers: u8) -> (k: Self)
        ensures
            k == (KeyInput { code, modifiers }),
    {
        KeyInput { code, modifiers }
    }
}

/// A mouse button.
#[derive(Debug, Clone, Copy, PartialEq, Eq, Structural)]
pub enum MouseInputButton {
    Left,
    Right,
    Middle,
}

/// What a mouse event did.
#[derive(Debug, Clone, Copy, PartialEq, Eq, Structural)]
pub enum MouseInputKind {
    Down(MouseInputButton),
    Up(MouseInputButton),
    Drag(MouseInputButton),
    Moved,
    ScrollDown,
    ScrollUp,
    ScrollLeft,
    ScrollRight,
}

/// A mouse event at a terminal cell, with modifier bits.
#[derive(Debug, Clone, Copy, PartialEq, Eq, Structural)]
pub struct MouseInput {
    pub kind: MouseInputKind,
    pub row: u16,
    pub col: u16,
    pub modifiers: u8,
}

impl MouseInput {
    pub fn from_parts(kind: MouseInputKind, row: u16, col: u16, modifiers: u8) -> (m: Self)
        ensures
            m == (MouseInput { kind, row, col, modifiers }),
    {
        MouseInput { kind, row, col, modifiers }
    }
}

/// A pane of the active window in a snapshot.
#[derive(Debug, Clone)]
pub struct PaneSnapshot {
    pub index: u32,
    pub active: bool,
    pub rect: PaneRect,
    pub rows: Vec<Vec<TerminalSpan>>,
    pub cursor: Option<(u16, u16)>,
    pub hide_cursor: bool,
    pub mouse_protocol_active: bool,
}

/// The active terminal as the UI draws it.
#[derive(Debug, Clone)]
pub struct TerminalSnapshot {
    pub rows: Vec<Vec<TerminalSpan>>,
    pub cursor: Option<(u16, u16)>,
    pub hide_cursor: bool,
    pub mouse_protocol_active: bool,
    pub scrollback: usize,
    pub axis: PaneAxis,
    pub separators: Vec<PaneSeparator>,
    pub panes: Vec<PaneSnapshot>,
}

impl Default for TerminalSnapshot {
    /// No rows, a hidden cursor, no mouse tracking, at the live bottom.
    fn default() -> (s: Self)
        ensures
            s.rows@.len() == 0,
            s.cursor is None,
            s.hide_cursor,
            !s.mouse_protocol_active,
            s.scrollback == 0,
            s.axis == PaneAxis::Columns,
            s.separators@.len() == 0,
            s.panes@.len() == 0,
    {
        TerminalSnapshot {
            rows: Vec::new(),
            cursor: None,
            hide_cursor: true,
            mouse_protocol_active: false,
            scrollback: 0,
            axis: PaneAxis::Columns,
            separators: Vec::new(),
            panes: Vec::new(),
        }
    }
}

/// The multiplexer state the UI renders: the windows, the panes of the
/// active window, and the active terminal.
#[derive(Debug, Clone)]
pub struct MuxSnapshot {
    pub windows: Vec<Window>,
    pub panes: Vec<Pane>,
    pub terminal: TerminalSnapshot,
}

/// A request to the multiplexer daemon.
#[derive(Debug, Clone)]
pub enum Request {
    Snapshot { width: u16, height: u16, selection: Option<SelectionRange> },
    SelectWindowByRow { row: usize },
    NewWindow { width: u16, height: u16 },
    KillWindowByRow { row: usize, width: u16, height: u16 },
    SelectPaneByRow { row: usize },
    ScrollActivePane { lines: i32 },
    SelectedText { selection: SelectionRange },
    SendKey { key: KeyInput },
    SendPaste { text: String },
    SendMouse { mouse: MouseInput },
    Shutdown,
}

/// The daemon's answer.
#[derive(Debug, Clone)]
pub enum Response {
    /// The request was carried out.
    Done,
    Snapshot(MuxSnapshot),
    Index(u32),
    Rows(usize),
    Text(String),
    Error(String),
}

/// A request that succeeds with nothing to report expects `Done`; any other
/// answer comes back as the error.
pub fn expect_ok(response: Response) -> (r: Result<(), Response>)
    ensures
        response is Done ==> r is Ok,
        !(response is Done) ==> r == Err::<(), Response>(response),
{
    match response {
        Response::Done => Ok(()),
        other => Err(other),
    }
}

/// The answer to a request: what the operation produced, or its error.
pub fn into_response(result: Result<Response, String>) -> (r: Response)
    ensures
        match result {
            Ok(resp) => r == resp,
            Err(e) => r == Response::Error(e),
        },
{
    match result {
        Ok(resp) => resp,
        Err(e) => Response::Error(e),
    }
}

/// Whether the daemon stops after answering: on a shutdown request that
/// it carried out.
pub fn ends_daemon(request: &Request, response: &Response) -> (b: bool)
    ensures
        b == (*request is Shutdown && *response is Done),
{
    matches!(request, Request::Shutdown) && matches!(response, Response::Done)
}

/// Characters kept in a socket file name.
pub open spec fn socket_safe_char(c: char) -> bool {
    ('a' <= c && c <= 'z') || ('A' <= c && c <= 'Z') || ('0' <= c && c <= '9') || c == '-' || c == '_'
}

/// The socket-safe characters of `s`, in order.
pub open spec fn socket_safe(s: Seq<char>) -> Seq<char>
    decreases s.len(),
{
    if s.len() == 0 {
        s
    } else {
        let r = socket_safe(s.drop_last());
        if socket_safe_char(s.last()) {
            r.push(s.last())
        } else {
            r
        }
    }
}

/// At most the first 24 characters.
pub open spec fn first24(s: Seq<char>) -> Seq<char> {
    if s.len() > 24 {
        s.take(24)
    } else {
        s
    }
}

/// A session name as it appears in the socket's file name: its first 24
/// ASCII letters, digits, dashes and underscores, or `session` when none.
pub open spec fn spec_sanitize(value: Seq<char>) -> Seq<char> {
    let kept = first24(socket_safe(value));
    if kept.len() == 0 {
        "session"@
    } else {
        kept
    }
}

proof fn lemma_socket_safe_chars(s: Seq<char>)
    ensures
        forall|i: int| 0 <= i < socket_safe(s).len() ==> socket_safe_char(#[trigger] socket_safe(s)[i]),
    decreases s.len(),
{
    if s.len() > 0 {
        lemma_socket_safe_chars(s.drop_last());
        let r = socket_safe(s.drop_last());
        if socket_safe_char(s.last()) {
            assert forall|i: int| 0 <= i < r.push(s.last()).len() implies socket_safe_char(#[trigger] r.push(s.last())[i]) by {
                if i < r.len() {
                    assert(r.push(s.last())[i] == r[i]);
                }
            }
        }
    }
}

/// A session name made safe for the socket's file name: never empty, at
/// most 24 characters, all of them letters, digits, dashes or underscores.
pub fn sanitize(value: &str) -> (r: String)
    ensures
        r@ == spec_sanitize(value@),
        0 < r@.len() <= 24,
        forall|i: int| 0 <= i < r@.len() ==> socket_safe_char(#[trigger] r@[i]),
{
    proof {
        lemma_socket_safe_chars(value@);
        reveal_strlit("session");
    }
    let v = crate::text::chars_of(value);
    let mut out: Vec<char> = Vec::new();
    let mut i: usize = 0;
    while i < v.len()
        invariant
            i <= v.len(),
            out@ == first24(socket_safe(v@.take(i as int))),
        decreases v.len() - i,
    {
        let c = v[i];
        let safe = ('a' <= c && c <= 'z') || ('A' <= c && c <= 'Z') || ('0' <= c && c <= '9') || c == '-' || c == '_';
        if safe && out.len() < 24 {
            out.push(c);
        }
        proof {
            let t = v@.take(i + 1);
            assert(t.drop_last() =~= v@.take(i as int));
            assert(t.last() == c);
            if safe && socket_safe(v@.take(i as int)).len() >= 24 {
                assert(first24(socket_safe(v@.take(i as int)).push(c)) =~= first24(socket_safe(v@.take(i as int))));
            }
            if safe && socket_safe(v@.take(i as int)).len() < 24 {
                assert(first24(socket_safe(t)) =~= out@);
            }
        }
        i = i + 1;
    }
    assert(v@.take(v.len() as int) =~= v@);
    if out.len() == 0 {
        String::from_str("session")
    } else {
        crate::text::string_of(&out)
    }
}

} // verus!
