//! The interactive client's state machine. The binary reads keyboard and
//! mouse events, hands them to [`UiModel`], and performs the returned
//! [`UiAction`]s against the multiplexer and the clipboard; what those calls
//! report comes back through the `report_*` methods. Every decision about
//! what an event means is made here.

use vstd::prelude::*;

use crate::mux_backend::{has_mod, MOD_ALT, MOD_CONTROL, MOD_SHIFT, MOD_SUPER, KeyInput, KeyInputCode, MouseInput, MouseInputButton, MouseInputKind, MuxSnapshot, PaneSnapshot};
use crate::native_mux::{Pane, PaneAxis, PaneSeparator, Window};
use crate::terminal::{SelectionRange, TerminalSpan};
use crate::text::{dec_digits, push_decimal, push_str};
use crate::ui::{
    ContextMenuAction, Hotspot, Regions, context_menu_action_at, first_menu_hit, hit_test, menu_action, regions_ok,
    regions_wf, spec_cell_at_pane, spec_cell_for_pane, spec_hit_test, spec_menu_index, terminal_cell_at_pane,
    terminal_cell_for_pane,
};

verus! {

/// A key press as the client sees it: the key (`None` for a key that the
/// multiplexer does not carry, such as a media key) and the full modifier
/// bit set (Shift 1, Control 2, Alt 4, Super 8, Hyper 16, Meta 32).
#[derive(Debug, Clone, Copy, PartialEq, Eq, Structural)]
pub struct UiKey {
    pub code: Option<KeyInputCode>,
    pub modifiers: u8,
}

impl UiKey {
    pub fn new(code: KeyInputCode, modifiers: u8) -> (k: Self)
        ensures
            k == (UiKey { code: Some(code), modifiers }),
    {
        UiKey { code: Some(code), modifiers }
    }
}

/// A mouse event at screen cell (`column`, `row`), with modifier bits.
#[derive(Debug, Clone, Copy, PartialEq, Eq, Structural)]
pub struct UiMouse {
    pub kind: MouseInputKind,
    pub column: u16,
    pub row: u16,
    pub modifiers: u8,
}

/// A text selection in progress or finished, in pane-local cells.
#[derive(Debug, Clone, Copy, PartialEq, Eq)]
pub struct SelectionState {
    pub pane: usize,
    pub anchor: (u16, u16),
    pub focus: (u16, u16),
    pub dragging: bool,
}

/// A left press over a pane whose program tracks the mouse, held back until
/// the next event shows whether it was a click or the start of a drag.
#[derive(Debug, Clone, Copy, PartialEq, Eq)]
pub struct PendingMouseDown {
    pub pane: usize,
    pub row: u16,
    pub col: u16,
    pub modifiers: u8,
    pub child_wants_mouse: bool,
}

/// The open right-click menu.
#[derive(Debug, Clone, Copy, PartialEq, Eq)]
pub struct ContextMenuState {
    pub anchor: (u16, u16),
    pub selected: ContextMenuAction,
}

/// An operation whose failure the status line reports.
#[derive(Debug, Clone, Copy, PartialEq, Eq, Structural)]
pub enum UiOp {
    Copy,
    Paste,
    TerminalPaste,
    TerminalInput,
    TerminalMouse,
    SelectWindow,
    KillWindow,
    SelectPane,
    Scrollback,
    NewWindow,
}

/// The transient message of the status line.
#[derive(Debug, Clone, PartialEq, Eq)]
pub enum UiNote {
    TerminalMode,
    NavigationMode,
    TerminalModeHint,
    ShortcutIgnored,
    NothingSelected,
    ContextMenuCancelled,
    SplitDeprecated,
    NoWindows,
    OnlyOneWindow,
    NoActiveWindow,
    ClipboardEmpty,
    CopyNotReady,
    Copied(usize),
    Pasted(usize),
    ScrollbackBottom,
    Scrollback(usize),
    KilledWindow(u32),
    Failed(UiOp, String),
}

/// Work the binary performs for the model, in order.
#[derive(Debug, Clone, PartialEq, Eq)]
pub enum UiAction {
    /// Leave the client.
    Quit,
    /// Leave the client, keeping the multiplexer running.
    Detach,
    /// Forward a key to the active terminal.
    SendKey(KeyInput),
    /// Forward a mouse event to the active terminal.
    SendMouse(MouseInput),
    /// Paste text into the active terminal: text the host terminal pasted,
    /// or what the clipboard held.
    SendPaste { text: String, from_clipboard: bool },
    /// Fetch the text of a selection, for the clipboard; hand it back
    /// through [`UiModel::selected_text_ready`].
    CopySelection { range: SelectionRange, from_menu: bool },
    /// Put text on the system clipboard; report through
    /// [`UiModel::report_clipboard_copy`].
    CopyText { text: String, from_menu: bool },
    /// Read the system clipboard; hand it back through
    /// [`UiModel::clipboard_read`].
    PasteClipboard,
    NewWindow,
    SelectWindow(usize),
    KillWindow(usize),
    SelectPane(usize),
    /// Scroll the active pane by `lines` (into history when positive).
    Scroll(i32),
    /// After the pane switch before it, hand this event back through
    /// [`UiModel::resume_mouse`].
    ResumeMouse(UiMouse),
    /// Take a fresh snapshot of the active terminal at this size.
    Refresh { width: u16, height: u16 },
}

/// Everything the client shows and decides on.
pub struct UiModel {
    pub hover: Option<Hotspot>,
    pub regions: Regions,
    pub windows: Vec<Window>,
    pub panes: Vec<Pane>,
    pub status: Option<UiNote>,
    pub terminal_error: Option<String>,
    pub terminal_mode: bool,
    pub selection: Option<SelectionState>,
    pub pending_left_down: Option<PendingMouseDown>,
    pub paste_highlight_pending: bool,
    pub raw_key_tail: Vec<char>,
    pub context_menu: Option<ContextMenuState>,
    pub terminal_axis: PaneAxis,
    pub terminal_separators: Vec<PaneSeparator>,
    pub terminal_panes: Vec<PaneSnapshot>,
    pub terminal_rows: Vec<Vec<TerminalSpan>>,
    pub terminal_cursor: Option<(u16, u16)>,
    pub terminal_hide_cursor: bool,
    pub terminal_mouse_protocol_active: bool,
    pub terminal_scrollback: usize,
}

/// What the model holds, with its collections as sequences.
#[verifier::ext_equal]
pub struct UiView {
    pub hover: Option<Hotspot>,
    pub regions: Regions,
    pub windows: Seq<Window>,
    pub panes: Seq<Pane>,
    pub status: Option<UiNote>,
    pub terminal_error: Option<String>,
    pub terminal_mode: bool,
    pub selection: Option<SelectionState>,
    pub pending_left_down: Option<PendingMouseDown>,
    pub paste_highlight_pending: bool,
    pub raw_key_tail: Seq<char>,
    pub context_menu: Option<ContextMenuState>,
    pub terminal_axis: PaneAxis,
    pub terminal_separators: Seq<PaneSeparator>,
    pub terminal_panes: Seq<PaneSnapshot>,
    pub terminal_rows: Seq<Vec<TerminalSpan>>,
    pub terminal_cursor: Option<(u16, u16)>,
    pub terminal_hide_cursor: bool,
    pub terminal_mouse_protocol_active: bool,
    pub terminal_scrollback: usize,
}

impl View for UiModel {
    type V = UiView;

    open spec fn view(&self) -> UiView {
        UiView {
            hover: self.hover,
            regions: self.regions,
            windows: self.windows@,
            panes: self.panes@,
            status: self.status,
            terminal_error: self.terminal_error,
            terminal_mode: self.terminal_mode,
            selection: self.selection,
            pending_left_down: self.pending_left_down,
            paste_highlight_pending: self.paste_highlight_pending,
            raw_key_tail: self.raw_key_tail@,
            context_menu: self.context_menu,
            terminal_axis: self.terminal_axis,
            terminal_separators: self.terminal_separators@,
            terminal_panes: self.terminal_panes@,
            terminal_rows: self.terminal_rows@,
            terminal_cursor: self.terminal_cursor,
            terminal_hide_cursor: self.terminal_hide_cursor,
            terminal_mouse_protocol_active: self.terminal_mouse_protocol_active,
            terminal_scrollback: self.terminal_scrollback,
        }
    }
}

/// The model with the selection, the held-back press and the paste
/// highlight dropped.
pub open spec fn cleared(m: UiView) -> UiView {
    UiView { selection: None, pending_left_down: None, paste_highlight_pending: false, ..m }
}

/// The model showing `note` in the status line.
pub open spec fn noted(m: UiView, note: UiNote) -> UiView {
    UiView { status: Some(note), ..m }
}

/// The selection as a range, when its two ends differ.
pub open spec fn spec_selection_range(m: UiView) -> Option<SelectionRange> {
    match m.selection {
        Some(s) => if s.anchor != s.focus {
            Some(SelectionRange { start_row: s.anchor.0, start_col: s.anchor.1, end_row: s.focus.0, end_col: s.focus.1 })
        } else {
            None
        },
        None => None,
    }
}

/// The selection with its loose end moved to `(row, col)`.
pub open spec fn spec_update_selection(m: UiView, row: u16, col: u16) -> UiView {
    match m.selection {
        Some(s) => UiView {
            selection: Some(SelectionState { focus: (row, col), dragging: true, ..s }),
            ..m
        },
        None => m,
    }
}

/// The selection after the button is released at `(row, col)`: kept when it
/// covers more than its anchor, dropped otherwise.
pub open spec fn spec_finish_selection(m: UiView, row: u16, col: u16) -> UiView {
    let m1 = spec_update_selection(m, row, col);
    if spec_selection_range(m1) is None {
        UiView { selection: None, ..m1 }
    } else {
        UiView { selection: Some(SelectionState { dragging: false, ..m1.selection.unwrap() }), ..m1 }
    }
}

/// The menu opened at `(x, y)` with its first entry selected.
pub open spec fn spec_open_menu(m: UiView, x: u16, y: u16) -> UiView {
    UiView {
        pending_left_down: None,
        context_menu: Some(ContextMenuState { anchor: (x, y), selected: ContextMenuAction::Copy }),
        hover: Some(Hotspot::ContextMenu(ContextMenuAction::Copy)),
        ..m
    }
}

/// The menu closed, with its hover highlight gone.
pub open spec fn spec_close_menu(m: UiView) -> UiView {
    UiView {
        context_menu: None,
        hover: if m.hover matches Some(Hotspot::ContextMenu(_)) {
            None
        } else {
            m.hover
        },
        ..m
    }
}

/// The menu with `action` selected and highlighted.
pub open spec fn spec_select_menu(m: UiView, action: ContextMenuAction) -> UiView {
    UiView {
        context_menu: match m.context_menu {
            Some(menu) => Some(ContextMenuState { selected: action, ..menu }),
            None => None,
        },
        hover: Some(Hotspot::ContextMenu(action)),
        ..m
    }
}

/// Whether the program in pane `row` tracks the mouse; without pane
/// details, whether the active terminal does.
pub open spec fn spec_pane_mouse(m: UiView, row: usize) -> bool {
    if row < m.terminal_panes.len() {
        m.terminal_panes[row as int].mouse_protocol_active
    } else {
        m.terminal_mouse_protocol_active
    }
}

/// Whether pane `row` is the active one.
pub open spec fn spec_pane_active(m: UiView, row: usize) -> bool {
    row < m.panes.len() && m.panes[row as int].active
}

impl UiModel {
    /// A model in terminal mode with nothing drawn, selected or known yet.
    pub fn new() -> (m: Self)
        ensures
            m@ == (UiView {
                hover: None,
                regions: m@.regions,
                windows: Seq::empty(),
                panes: Seq::empty(),
                status: None,
                terminal_error: None,
                terminal_mode: true,
                selection: None,
                pending_left_down: None,
                paste_highlight_pending: false,
                raw_key_tail: Seq::empty(),
                context_menu: None,
                terminal_axis: PaneAxis::Columns,
                terminal_separators: Seq::empty(),
                terminal_panes: Seq::empty(),
                terminal_rows: Seq::empty(),
                terminal_cursor: None,
                terminal_hide_cursor: true,
                terminal_mouse_protocol_active: false,
                terminal_scrollback: 0,
            }),
            regions_wf(m.regions),
            m.regions.window_count == 0,
            m.regions.terminal_pane_count == 0,
            m.regions.context_menu_count == 0,
    {
        UiModel {
            hover: None,
            regions: Regions::new(),
            windows: Vec::new(),
            panes: Vec::new(),
            status: None,
            terminal_error: None,
            terminal_mode: true,
            selection: None,
            pending_left_down: None,
            paste_highlight_pending: false,
            raw_key_tail: Vec::new(),
            context_menu: None,
            terminal_axis: PaneAxis::Columns,
            terminal_separators: Vec::new(),
            terminal_panes: Vec::new(),
            terminal_rows: Vec::new(),
            terminal_cursor: None,
            terminal_hide_cursor: true,
            terminal_mouse_protocol_active: false,
            terminal_scrollback: 0,
        }
    }

    /// Takes in a fresh snapshot of the multiplexer.
    pub fn apply_snapshot(&mut self, snapshot: MuxSnapshot)
        ensures
            final(self)@ == (UiView {
                windows: snapshot.windows@,
                panes: snapshot.panes@,
                terminal_error: None,
                terminal_axis: snapshot.terminal.axis,
                terminal_separators: snapshot.terminal.separators@,
                terminal_panes: snapshot.terminal.panes@,
                terminal_rows: snapshot.terminal.rows@,
                terminal_cursor: snapshot.terminal.cursor,
                terminal_hide_cursor: snapshot.terminal.hide_cursor,
                terminal_mouse_protocol_active: snapshot.terminal.mouse_protocol_active,
                terminal_scrollback: snapshot.terminal.scrollback,
                ..old(self)@
            }),
    {
        self.terminal_error = None;
        self.windows = snapshot.windows;
        self.panes = snapshot.panes;
        self.terminal_axis = snapshot.terminal.axis;
        self.terminal_separators = snapshot.terminal.separators;
        self.terminal_panes = snapshot.terminal.panes;
        self.terminal_rows = snapshot.terminal.rows;
        self.terminal_cursor = snapshot.terminal.cursor;
        self.terminal_hide_cursor = snapshot.terminal.hide_cursor;
        self.terminal_mouse_protocol_active = snapshot.terminal.mouse_protocol_active;
        self.terminal_scrollback = snapshot.terminal.scrollback;
    }

    /// The selection as a range, when it covers more than its anchor.
    pub fn selection_range(&self) -> (r: Option<SelectionRange>)
        ensures
            r == spec_selection_range(self@),
    {
        match self.selection {
            Some(s) => if s.anchor.0 != s.focus.0 || s.anchor.1 != s.focus.1 {
                Some(SelectionRange::new(s.anchor.0, s.anchor.1, s.focus.0, s.focus.1))
            } else {
                None
            },
            None => None,
        }
    }

    /// Starts a selection at one cell of a pane.
    pub fn begin_selection(&mut self, pane: usize, row: u16, col: u16)
        ensures
            final(self)@ == (UiView {
                pending_left_down: None,
                selection: Some(SelectionState { pane, anchor: (row, col), focus: (row, col), dragging: false }),
                ..old(self)@
            }),
    {
        self.pending_left_down = None;
        self.selection = Some(SelectionState { pane, anchor: (row, col), focus: (row, col), dragging: false });
    }

    /// Moves the loose end of the selection, if there is one.
    pub fn update_selection(&mut self, row: u16, col: u16)
        ensures
            final(self)@ == spec_update_selection(old(self)@, row, col),
    {
        if let Some(s) = self.selection {
            self.selection = Some(SelectionState { focus: (row, col), dragging: true, ..s });
        }
    }

    /// Ends a drag at `(row, col)`.
    pub fn finish_selection(&mut self, row: u16, col: u16)
        ensures
            final(self)@ == spec_finish_selection(old(self)@, row, col),
    {
        self.update_selection(row, col);
        if self.selection_range().is_none() {
            self.selection = None;
        } else if let Some(s) = self.selection {
            self.selection = Some(SelectionState { dragging: false, ..s });
        }
    }

    /// Drops the selection, the held-back press and the paste highlight.
    pub fn clear_selection(&mut self)
        ensures
            final(self)@ == cleared(old(self)@),
    {
        self.selection = None;
        self.pending_left_down = None;
        self.paste_highlight_pending = false;
    }

    /// Opens the right-click menu at `(x, y)`.
    pub fn open_context_menu(&mut self, x: u16, y: u16)
        ensures
            final(self)@ == spec_open_menu(old(self)@, x, y),
    {
        self.pending_left_down = None;
        self.context_menu = Some(ContextMenuState { anchor: (x, y), selected: ContextMenuAction::Copy });
        self.hover = Some(Hotspot::ContextMenu(ContextMenuAction::Copy));
    }

    /// Closes the right-click menu.
    pub fn close_context_menu(&mut self)
        ensures
            final(self)@ == spec_close_menu(old(self)@),
    {
        self.context_menu = None;
        if let Some(Hotspot::ContextMenu(_)) = self.hover {
            self.hover = None;
        }
    }

    /// Selects and highlights a menu entry.
    pub fn select_context_menu_action(&mut self, action: ContextMenuAction)
        ensures
            final(self)@ == spec_select_menu(old(self)@, action),
    {
        if let Some(menu) = self.context_menu {
            self.context_menu = Some(ContextMenuState { selected: action, ..menu });
        }
        self.hover = Some(Hotspot::ContextMenu(action));
    }

    /// Whether the program in pane `row` tracks the mouse.
    pub fn pane_mouse_protocol_active(&self, row: usize) -> (b: bool)
        ensures
            b == spec_pane_mouse(self@, row),
    {
        if row < self.terminal_panes.len() {
            self.terminal_panes[row].mouse_protocol_active
        } else {
            self.terminal_mouse_protocol_active
        }
    }

    /// Whether pane `row` is the active one.
    pub fn pane_active(&self, row: usize) -> (b: bool)
        ensures
            b == spec_pane_active(self@, row),
    {
        row < self.panes.len() && self.panes[row].active
    }
}

/// No modifier held.
pub const NO_MODIFIERS: u8 = 0;

/// The code of `c` with ASCII capitals folded to small letters.
pub open spec fn ascii_folded(c: char) -> u32 {
    if 65 <= (c as u32) <= 90 {
        (c as u32 + 32) as u32
    } else {
        c as u32
    }
}

/// Whether the key is the character `expected`, ignoring ASCII case.
pub open spec fn spec_shortcut_char(key: UiKey, expected: char) -> bool {
    key.code matches Some(KeyInputCode::Char(ch)) && ascii_folded(ch) == ascii_folded(expected)
}

/// Super and Shift without Control or Alt (the Cmd+Shift chords on macOS).
pub open spec fn spec_macos_shift_command(m: u8) -> bool {
    has_mod(m, MOD_SUPER) && has_mod(m, MOD_SHIFT) && !has_mod(m, MOD_CONTROL) && !has_mod(m, MOD_ALT)
}

/// Control and Shift without Super or Alt.
pub open spec fn spec_control_shift(m: u8) -> bool {
    has_mod(m, MOD_CONTROL) && has_mod(m, MOD_SHIFT) && !has_mod(m, MOD_SUPER) && !has_mod(m, MOD_ALT)
}

pub open spec fn spec_plain_control_c(key: UiKey) -> bool {
    spec_shortcut_char(key, 'c') && key.modifiers == MOD_CONTROL
}

pub open spec fn spec_copy_shortcut(key: UiKey) -> bool {
    spec_shortcut_char(key, 'c') && (spec_plain_control_c(key) || spec_control_shift(key.modifiers)
        || spec_macos_shift_command(key.modifiers))
}

pub open spec fn spec_paste_shortcut(key: UiKey) -> bool {
    spec_shortcut_char(key, 'v') && (key.modifiers == MOD_CONTROL || spec_control_shift(key.modifiers)
        || spec_macos_shift_command(key.modifiers))
}

/// Cmd+Shift+Left and Cmd+Shift+Right become Home and End.
pub open spec fn spec_line_boundary_key(key: UiKey) -> Option<UiKey> {
    if key.code == Some(KeyInputCode::Left) && spec_macos_shift_command(key.modifiers) {
        Some(UiKey { code: Some(KeyInputCode::Home), modifiers: NO_MODIFIERS })
    } else if key.code == Some(KeyInputCode::Right) && spec_macos_shift_command(key.modifiers) {
        Some(UiKey { code: Some(KeyInputCode::End), modifiers: NO_MODIFIERS })
    } else {
        None
    }
}

/// The character an unmodified key contributes to a raw escape sequence.
pub open spec fn spec_raw_char(key: UiKey) -> Option<char> {
    if key.modifiers != NO_MODIFIERS {
        None
    } else {
        match key.code {
            Some(KeyInputCode::Esc) => Some('\x1b'),
            Some(KeyInputCode::Char(ch)) => if (ch as u32) < 128 {
                Some(ch)
            } else {
                None
            },
            _ => None,
        }
    }
}

/// How a bracketed paste ends when a terminal types it as keys.
pub open spec fn paste_end_marker() -> Seq<char> {
    seq!['\x1b', '[', '2', '0', '1', '~']
}

/// The last keys typed since the last Escape, at most as many as the marker
/// has.
pub open spec fn next_tail(tail: Seq<char>, ch: char) -> Seq<char> {
    let t = if ch == '\x1b' {
        seq![ch]
    } else {
        tail.push(ch)
    };
    if t.len() > 6 {
        t.subrange(t.len() - 6, t.len() as int)
    } else {
        t
    }
}

/// Whether `tail` ends with the marker.
pub open spec fn ends_with_marker(tail: Seq<char>) -> bool {
    tail.len() >= 6 && tail.subrange(tail.len() - 6, tail.len() as int) == paste_end_marker()
}

/// The key in the multiplexer's terms: Shift, Control, Alt and Super kept.
pub open spec fn spec_key_input(key: UiKey) -> Option<KeyInput> {
    match key.code {
        Some(c) => Some(KeyInput { code: c, modifiers: key.modifiers & 15u8 }),
        None => None,
    }
}

/// The action that forwards `key`, if the multiplexer carries it.
pub open spec fn send_key_actions(key: UiKey) -> Seq<UiAction> {
    match spec_key_input(key) {
        Some(k) => seq![UiAction::SendKey(k)],
        None => seq![],
    }
}

fn folded(c: char) -> (r: u32)
    ensures
        r == ascii_folded(c),
{
    let v = c as u32;
    if 65 <= v && v <= 90 {
        v + 32
    } else {
        v
    }
}

/// Whether the key is `expected`, ignoring ASCII case.
pub fn shortcut_char(key: UiKey, expected: char) -> (b: bool)
    ensures
        b == spec_shortcut_char(key, expected),
{
    match key.code {
        Some(KeyInputCode::Char(ch)) => folded(ch) == folded(expected),
        _ => false,
    }
}

/// Super and Shift without Control or Alt.
pub fn is_macos_shift_command(modifiers: u8) -> (b: bool)
    ensures
        b == spec_macos_shift_command(modifiers),
{
    modifiers & MOD_SUPER != 0 && modifiers & MOD_SHIFT != 0 && modifiers & MOD_CONTROL == 0
        && modifiers & MOD_ALT == 0
}

/// Control and Shift without Super or Alt.
pub fn is_control_shift_shortcut(modifiers: u8) -> (b: bool)
    ensures
        b == spec_control_shift(modifiers),
{
    modifiers & MOD_CONTROL != 0 && modifiers & MOD_SHIFT != 0 && modifiers & MOD_SUPER == 0
        && modifiers & MOD_ALT == 0
}

/// Control+C and nothing else: the interrupt a shell expects.
pub fn is_plain_control_c(key: UiKey) -> (b: bool)
    ensures
        b == spec_plain_control_c(key),
{
    shortcut_char(key, 'c') && key.modifiers == MOD_CONTROL
}

/// Control+C, Control+Shift+C or Cmd+Shift+C.
pub fn is_copy_shortcut(key: UiKey) -> (b: bool)
    ensures
        b == spec_copy_shortcut(key),
{
    shortcut_char(key, 'c') && (is_plain_control_c(key) || is_control_shift_shortcut(key.modifiers)
        || is_macos_shift_command(key.modifiers))
}

/// Control+V, Control+Shift+V or Cmd+Shift+V.
pub fn is_paste_shortcut(key: UiKey) -> (b: bool)
    ensures
        b == spec_paste_shortcut(key),
{
    shortcut_char(key, 'v') && (key.modifiers == MOD_CONTROL || is_control_shift_shortcut(key.modifiers)
        || is_macos_shift_command(key.modifiers))
}

/// Cmd+Shift+Left/Right as Home/End.
pub fn terminal_line_boundary_key(key: UiKey) -> (r: Option<UiKey>)
    ensures
        r == spec_line_boundary_key(key),
{
    if !is_macos_shift_command(key.modifiers) {
        return None;
    }
    match key.code {
        Some(KeyInputCode::Left) => Some(UiKey { code: Some(KeyInputCode::Home), modifiers: NO_MODIFIERS }),
        Some(KeyInputCode::Right) => Some(UiKey { code: Some(KeyInputCode::End), modifiers: NO_MODIFIERS }),
        _ => None,
    }
}

/// The character an unmodified Escape or ASCII key types.
pub fn raw_key_sequence_char(key: UiKey) -> (r: Option<char>)
    ensures
        r == spec_raw_char(key),
{
    if key.modifiers != NO_MODIFIERS {
        return None;
    }
    match key.code {
        Some(KeyInputCode::Esc) => Some('\x1b'),
        Some(KeyInputCode::Char(ch)) => if (ch as u32) < 128 {
            Some(ch)
        } else {
            None
        },
        _ => None,
    }
}

/// The key in the multiplexer's terms.
pub fn key_input_of(key: UiKey) -> (r: Option<KeyInput>)
    ensures
        r == spec_key_input(key),
{
    match key.code {
        Some(c) => Some(KeyInput { code: c, modifiers: key.modifiers & 15u8 }),
        None => None,
    }
}

fn last_chars(v: &Vec<char>, n: usize) -> (r: Vec<char>)
    requires
        n <= v.len(),
    ensures
        r@ == v@.subrange(v.len() - n, v.len() as int),
{
    let mut r: Vec<char> = Vec::new();
    let start = v.len() - n;
    let mut i = start;
    while i < v.len()
        invariant
            start <= i <= v.len(),
            start == v.len() - n,
            r@ == v@.subrange(start as int, i as int),
        decreases v.len() - i,
    {
        r.push(v[i]);
        i = i + 1;
        assert(r@ =~= v@.subrange(start as int, i as int));
    }
    r
}

fn tail_ends_with_marker(t: &Vec<char>) -> (b: bool)
    ensures
        b == ends_with_marker(t@),
{
    let n = t.len();
    if n < 6 {
        return false;
    }
    let b = t[n - 6] == '\x1b' && t[n - 5] == '[' && t[n - 4] == '2' && t[n - 3] == '0' && t[n - 2] == '1'
        && t[n - 1] == '~';
    proof {
        let sub = t@.subrange(n - 6, n as int);
        if b {
            assert(sub =~= paste_end_marker());
        } else if sub == paste_end_marker() {
            assert(sub[0] == t@[n - 6]);
            assert(sub[1] == t@[n - 5]);
            assert(sub[2] == t@[n - 4]);
            assert(sub[3] == t@[n - 3]);
            assert(sub[4] == t@[n - 2]);
            assert(sub[5] == t@[n - 1]);
        }
    }
    b
}

impl UiModel {
    /// Follows keys that a terminal without bracketed-paste support types
    /// for a paste, and reports when the paste's closing marker completes.
    pub fn observe_raw_bracketed_paste_key(&mut self, key: UiKey) -> (done: bool)
        ensures
            match spec_raw_char(key) {
                None => final(self)@ == (UiView { raw_key_tail: seq![], ..old(self)@ }) && !done,
                Some(ch) => final(self)@ == (UiView { raw_key_tail: next_tail(old(self)@.raw_key_tail, ch), ..old(self)@ })
                    && done == ends_with_marker(next_tail(old(self)@.raw_key_tail, ch)),
            },
    {
        match raw_key_sequence_char(key) {
            None => {
                self.raw_key_tail = Vec::new();
                false
            },
            Some(ch) => {
                let mut t: Vec<char> = if ch == '\x1b' {
                    Vec::new()
                } else {
                    let mut c = Vec::new();
                    crate::text::append_chars(&mut c, &self.raw_key_tail);
                    c
                };
                t.push(ch);
                if t.len() > 6 {
                    t = last_chars(&t, 6);
                }
                proof {
                    let old_tail = old(self)@.raw_key_tail;
                    assert(t@ =~= next_tail(old_tail, ch)) by {
                        if ch == '\x1b' {
                            assert(seq![ch] =~= Seq::<char>::empty().push(ch));
                        }
                    }
                }
                let done = tail_ends_with_marker(&t);
                self.raw_key_tail = t;
                done
            },
        }
    }
}

/// Typing the closing marker of a bracketed paste as plain keys is
/// recognized on its last key, whatever was typed before.
pub proof fn raw_paste_end_is_recognized(tail: Seq<char>)
    ensures
        ends_with_marker(
            next_tail(next_tail(next_tail(next_tail(next_tail(next_tail(tail, '\x1b'), '['), '2'), '0'), '1'), '~'),
        ),
{
    let t1 = next_tail(tail, '\x1b');
    assert(t1 =~= seq!['\x1b']);
    let t6 = next_tail(next_tail(next_tail(next_tail(next_tail(t1, '['), '2'), '0'), '1'), '~');
    assert(t6 =~= paste_end_marker());
    assert(t6.subrange(0, 6) =~= t6);
}

/// The model after an unmodified key took part in a raw escape sequence, or
/// broke one.
pub open spec fn after_raw_key(m: UiView, key: UiKey) -> UiView {
    match spec_raw_char(key) {
        Some(ch) => UiView { raw_key_tail: next_tail(m.raw_key_tail, ch), ..m },
        None => UiView { raw_key_tail: seq![], ..m },
    }
}

/// Whether `key` completes the closing marker of a typed paste.
pub open spec fn raw_paste_done(m: UiView, key: UiKey) -> bool {
    match spec_raw_char(key) {
        Some(ch) => ends_with_marker(next_tail(m.raw_key_tail, ch)),
        None => false,
    }
}

/// A key typed in terminal mode: the copy and paste shortcuts act on the
/// clipboard, Cmd+Shift+arrows become Home/End, other Super chords are
/// ignored, and everything else clears the selection and goes to the
/// terminal.
pub open spec fn spec_send_terminal_key(m: UiView, key: UiKey) -> (UiView, Seq<UiAction>) {
    if spec_copy_shortcut(key) && spec_selection_range(m) is Some {
        (m, seq![UiAction::CopySelection { range: spec_selection_range(m).unwrap(), from_menu: false }])
    } else if spec_copy_shortcut(key) && !spec_plain_control_c(key) {
        (noted(m, UiNote::NothingSelected), seq![])
    } else if spec_paste_shortcut(key) {
        (cleared(m), seq![UiAction::PasteClipboard])
    } else {
        let k = match spec_line_boundary_key(key) {
            Some(b) => b,
            None => key,
        };
        if has_mod(k.modifiers, MOD_SUPER) {
            (noted(m, UiNote::ShortcutIgnored), seq![])
        } else {
            let m1 = if m.selection is Some {
                cleared(m)
            } else {
                m
            };
            (UiView { paste_highlight_pending: raw_paste_done(m1, k), ..after_raw_key(m1, k) }, send_key_actions(k))
        }
    }
}

/// A menu entry carried out: the menu closes first.
pub open spec fn spec_perform_menu(m: UiView, action: ContextMenuAction) -> (UiView, Seq<UiAction>) {
    let m1 = spec_close_menu(m);
    match action {
        ContextMenuAction::Copy => match spec_selection_range(m1) {
            Some(range) => (m1, seq![UiAction::CopySelection { range, from_menu: true }]),
            None => (noted(m1, UiNote::NothingSelected), seq![]),
        },
        ContextMenuAction::Paste => (cleared(m1), seq![UiAction::PasteClipboard]),
        ContextMenuAction::Cancel => (noted(m1, UiNote::ContextMenuCancelled), seq![]),
    }
}

/// A key while the menu is open: Escape closes it, the arrows move through
/// it (wrapping), Enter runs the selected entry, C and P run Copy and
/// Paste, and every other key is swallowed.
pub open spec fn spec_menu_key(m: UiView, menu: ContextMenuState, key: UiKey) -> (UiView, Seq<UiAction>) {
    let idx = spec_menu_index(menu.selected);
    match key.code {
        Some(KeyInputCode::Esc) => (spec_close_menu(m), seq![]),
        Some(KeyInputCode::Up) => (spec_select_menu(m, menu_action(((idx + 2) % 3) as int)), seq![]),
        Some(KeyInputCode::Down) => (spec_select_menu(m, menu_action(((idx + 1) % 3) as int)), seq![]),
        Some(KeyInputCode::Enter) => spec_perform_menu(m, menu.selected),
        Some(KeyInputCode::Char(c)) => if c == 'c' || c == 'C' {
            spec_perform_menu(m, ContextMenuAction::Copy)
        } else if c == 'p' || c == 'P' {
            spec_perform_menu(m, ContextMenuAction::Paste)
        } else {
            (m, seq![])
        },
        _ => (m, seq![]),
    }
}

impl UiModel {
    /// A key typed in terminal mode.
    pub fn send_terminal_key(&mut self, key: UiKey) -> (r: Vec<UiAction>)
        ensures
            (final(self)@, r@) == spec_send_terminal_key(old(self)@, key),
    {
        if is_copy_shortcut(key) {
            if let Some(range) = self.selection_range() {
                return vec![UiAction::CopySelection { range, from_menu: false }];
            }
            if !is_plain_control_c(key) {
                self.status = Some(UiNote::NothingSelected);
                return Vec::new();
            }
        }
        if is_paste_shortcut(key) {
            self.clear_selection();
            return vec![UiAction::PasteClipboard];
        }
        let k = match terminal_line_boundary_key(key) {
            Some(b) => b,
            None => key,
        };
        if k.modifiers & MOD_SUPER != 0 {
            self.status = Some(UiNote::ShortcutIgnored);
            return Vec::new();
        }
        if self.selection.is_some() {
            self.clear_selection();
        }
        let done = self.observe_raw_bracketed_paste_key(k);
        self.paste_highlight_pending = done;
        match key_input_of(k) {
            Some(input) => vec![UiAction::SendKey(input)],
            None => Vec::new(),
        }
    }

    /// Text the host terminal pasted while in terminal mode. It is expected
    /// to arrive; [`UiModel::report_paste`] corrects the highlight if not.
    pub fn send_terminal_paste(&mut self, text: &str) -> (r: Vec<UiAction>)
        ensures
            final(self)@ == (UiView { paste_highlight_pending: text@.len() > 0, ..cleared(old(self)@) }),
            r@.len() == 1,
            r@[0] matches UiAction::SendPaste { text: t, from_clipboard } && t@ == text@ && !from_clipboard,
    {
        self.clear_selection();
        self.paste_highlight_pending = !text.is_empty();
        vec![UiAction::SendPaste { text: text.to_owned(), from_clipboard: false }]
    }

    /// Carries out a menu entry.
    pub fn perform_context_menu_action(&mut self, action: ContextMenuAction) -> (r: Vec<UiAction>)
        ensures
            (final(self)@, r@) == spec_perform_menu(old(self)@, action),
    {
        self.close_context_menu();
        match action {
            ContextMenuAction::Copy => match self.selection_range() {
                Some(range) => vec![UiAction::CopySelection { range, from_menu: true }],
                None => {
                    self.status = Some(UiNote::NothingSelected);
                    Vec::new()
                },
            },
            ContextMenuAction::Paste => {
                self.clear_selection();
                vec![UiAction::PasteClipboard]
            },
            ContextMenuAction::Cancel => {
                self.status = Some(UiNote::ContextMenuCancelled);
                Vec::new()
            },
        }
    }

    /// A key while the menu is open; `None` when no menu is open and the key
    /// goes on to the ordinary handling.
    pub fn handle_context_menu_key(&mut self, key: UiKey) -> (r: Option<Vec<UiAction>>)
        ensures
            match old(self)@.context_menu {
                None => r is None && final(self)@ == old(self)@,
                Some(menu) => r matches Some(acts) && (final(self)@, acts@) == spec_menu_key(old(self)@, menu, key),
            },
    {
        let menu = match self.context_menu {
            Some(menu) => menu,
            None => return None,
        };
        let idx = crate::ui::context_menu_action_index(menu.selected);
        match key.code {
            Some(KeyInputCode::Esc) => {
                self.close_context_menu();
                Some(Vec::new())
            },
            Some(KeyInputCode::Up) => {
                self.select_context_menu_action(crate::ui::context_menu_action((idx + 2) % 3));
                Some(Vec::new())
            },
            Some(KeyInputCode::Down) => {
                self.select_context_menu_action(crate::ui::context_menu_action((idx + 1) % 3));
                Some(Vec::new())
            },
            Some(KeyInputCode::Enter) => Some(self.perform_context_menu_action(menu.selected)),
            Some(KeyInputCode::Char(c)) => if c == 'c' || c == 'C' {
                Some(self.perform_context_menu_action(ContextMenuAction::Copy))
            } else if c == 'p' || c == 'P' {
                Some(self.perform_context_menu_action(ContextMenuAction::Paste))
            } else {
                Some(Vec::new())
            },
            _ => Some(Vec::new()),
        }
    }
}

/// The first active window at or after row `i`.
pub open spec fn first_active_window(ws: Seq<Window>, i: int) -> Option<int>
    decreases ws.len() - i,
{
    if i < 0 || i >= ws.len() {
        None
    } else if ws[i].active {
        Some(i)
    } else {
        first_active_window(ws, i + 1)
    }
}

/// The first active pane at or after row `i`.
pub open spec fn first_active_pane(ps: Seq<PaneSnapshot>, i: int) -> Option<int>
    decreases ps.len() - i,
{
    if i < 0 || i >= ps.len() {
        None
    } else if ps[i].active {
        Some(i)
    } else {
        first_active_pane(ps, i + 1)
    }
}

/// Rows a page scroll moves: the active pane's height (the terminal body's
/// without pane details) less one, and at least one.
pub open spec fn spec_page_lines(m: UiView) -> i32 {
    let h = match first_active_pane(m.terminal_panes, 0) {
        Some(i) => m.terminal_panes[i].rect.height,
        None => m.regions.terminal_body.height,
    };
    if h >= 3 {
        (h - 1) as i32
    } else {
        1
    }
}

/// Steps `delta` windows from the active one (the first window when none
/// is active), wrapping around.
pub open spec fn spec_select_adjacent(m: UiView, delta: i32) -> (UiView, Seq<UiAction>) {
    let count = m.windows.len();
    if count == 0 {
        (noted(m, UiNote::NoWindows), seq![])
    } else if count == 1 {
        (noted(m, UiNote::OnlyOneWindow), seq![])
    } else {
        let active = match first_active_window(m.windows, 0) {
            Some(i) => i,
            None => 0,
        };
        (m, seq![UiAction::SelectWindow(((active + delta) % (count as int)) as usize)])
    }
}

/// Closes the active window.
pub open spec fn spec_kill_active(m: UiView) -> (UiView, Seq<UiAction>) {
    match first_active_window(m.windows, 0) {
        Some(i) => (m, seq![UiAction::KillWindow(i as usize)]),
        None => (noted(m, UiNote::NoActiveWindow), seq![]),
    }
}

/// A key in navigation mode.
pub open spec fn spec_navigation_key(m: UiView, key: UiKey) -> (UiView, Seq<UiAction>) {
    match key.code {
        Some(KeyInputCode::Char(c)) => if c == 'c' && key.modifiers == MOD_CONTROL {
            (m, seq![UiAction::Quit])
        } else if c == 'q' {
            (m, seq![UiAction::Quit])
        } else if c == 'n' {
            (m, seq![UiAction::NewWindow])
        } else if c == '|' || c == 'v' || c == '-' || c == 'h' {
            (noted(m, UiNote::SplitDeprecated), seq![])
        } else if c == 'x' {
            spec_kill_active(m)
        } else if c == 'd' {
            (m, seq![UiAction::Detach])
        } else {
            (m, seq![])
        },
        Some(KeyInputCode::Esc) => (m, seq![UiAction::Quit]),
        Some(KeyInputCode::Tab) => spec_select_adjacent(m, 1),
        Some(KeyInputCode::PageUp) => (m, seq![UiAction::Scroll(spec_page_lines(m))]),
        Some(KeyInputCode::PageDown) => (m, seq![UiAction::Scroll((0 - spec_page_lines(m)) as i32)]),
        Some(KeyInputCode::Home) => (m, seq![UiAction::Scroll(1_000_000)]),
        Some(KeyInputCode::End) => (m, seq![UiAction::Scroll(0)]),
        Some(KeyInputCode::Left) => spec_select_adjacent(m, -1i32),
        Some(KeyInputCode::Up) => spec_select_adjacent(m, -1i32),
        Some(KeyInputCode::Right) => spec_select_adjacent(m, 1),
        Some(KeyInputCode::Down) => spec_select_adjacent(m, 1),
        _ => (m, seq![]),
    }
}

/// A key press: the menu takes it while open; F12 switches between
/// terminal and navigation mode; Alt+N opens a window and Alt+arrows step
/// through windows in either mode; otherwise terminal mode forwards the key
/// and navigation mode reads it as a command.
pub open spec fn spec_key_event(m: UiView, key: UiKey) -> (UiView, Seq<UiAction>) {
    match m.context_menu {
        Some(menu) => spec_menu_key(m, menu, key),
        None => if key.code matches Some(KeyInputCode::F(12)) {
            (
                UiView {
                    terminal_mode: !m.terminal_mode,
                    status: Some(if m.terminal_mode { UiNote::NavigationMode } else { UiNote::TerminalMode }),
                    ..m
                },
                seq![],
            )
        } else if key.code == Some(KeyInputCode::Char('n')) && key.modifiers == MOD_ALT {
            (m, seq![UiAction::NewWindow])
        } else if key.code == Some(KeyInputCode::Left) && key.modifiers == MOD_ALT {
            spec_select_adjacent(m, -1i32)
        } else if key.code == Some(KeyInputCode::Right) && key.modifiers == MOD_ALT {
            spec_select_adjacent(m, 1)
        } else if m.terminal_mode {
            spec_send_terminal_key(m, key)
        } else {
            spec_navigation_key(m, key)
        },
    }
}

proof fn lemma_first_active_window_bounds(ws: Seq<Window>, i: int)
    requires
        0 <= i,
    ensures
        first_active_window(ws, i) matches Some(j) ==> i <= j < ws.len(),
    decreases ws.len() - i,
{
    if i < ws.len() && !ws[i].active {
        lemma_first_active_window_bounds(ws, i + 1);
    }
}

proof fn lemma_first_active_pane_bounds(ps: Seq<PaneSnapshot>, i: int)
    requires
        0 <= i,
    ensures
        first_active_pane(ps, i) matches Some(j) ==> i <= j < ps.len(),
    decreases ps.len() - i,
{
    if i < ps.len() && !ps[i].active {
        lemma_first_active_pane_bounds(ps, i + 1);
    }
}

proof fn lemma_step_mod(a: int, d: int, c: int)
    requires
        0 < c,
        0 <= d,
    ensures
        (a + c - d % c) % c == (a - d) % c,
{
    vstd::arithmetic::div_mod::lemma_fundamental_div_mod(d, c);
    vstd::arithmetic::div_mod::lemma_mod_multiples_vanish(1 + d / c, a - d, c);
    assert(c * (1 + d / c) == c + c * (d / c)) by (nonlinear_arith);
}

impl UiModel {
    fn first_active_window_row(&self) -> (r: Option<usize>)
        ensures
            r is None ==> first_active_window(self@.windows, 0) is None,
            r matches Some(j) ==> first_active_window(self@.windows, 0) == Some(j as int) && j < self@.windows.len(),
    {
        let mut i: usize = 0;
        while i < self.windows.len()
            invariant
                i <= self.windows@.len(),
                first_active_window(self@.windows, 0) == first_active_window(self@.windows, i as int),
            decreases self.windows.len() - i,
        {
            proof {
                lemma_first_active_window_bounds(self@.windows, i as int);
            }
            if self.windows[i].active {
                return Some(i);
            }
            i = i + 1;
        }
        None
    }

    fn first_active_pane_row(&self) -> (r: Option<usize>)
        ensures
            r is None ==> first_active_pane(self@.terminal_panes, 0) is None,
            r matches Some(j) ==> first_active_pane(self@.terminal_panes, 0) == Some(j as int) && j < self@.terminal_panes.len(),
    {
        let mut i: usize = 0;
        while i < self.terminal_panes.len()
            invariant
                i <= self.terminal_panes@.len(),
                first_active_pane(self@.terminal_panes, 0) == first_active_pane(self@.terminal_panes, i as int),
            decreases self.terminal_panes.len() - i,
        {
            proof {
                lemma_first_active_pane_bounds(self@.terminal_panes, i as int);
            }
            if self.terminal_panes[i].active {
                return Some(i);
            }
            i = i + 1;
        }
        None
    }

    /// Rows a page scroll moves.
    pub fn scroll_page_lines(&self) -> (r: i32)
        ensures
            r == spec_page_lines(self@),
            1 <= r <= 65534,
    {
        let found = self.first_active_pane_row();
        let h: u16 = match found {
            Some(i) => self.terminal_panes[i].rect.height,
            None => self.regions.terminal_body.height,
        };
        if h >= 3 {
            (h - 1) as i32
        } else {
            1
        }
    }

    /// Steps `delta` windows from the active one.
    pub fn select_adjacent_window(&mut self, delta: i32) -> (r: Vec<UiAction>)
        ensures
            (final(self)@, r@) == spec_select_adjacent(old(self)@, delta),
    {
        let count = self.windows.len();
        if count == 0 {
            self.status = Some(UiNote::NoWindows);
            return Vec::new();
        }
        if count == 1 {
            self.status = Some(UiNote::OnlyOneWindow);
            return Vec::new();
        }
        let active: usize = match self.first_active_window_row() {
            Some(i) => i,
            None => 0,
        };
        let c = count as u128;
        let a = active as u128;
        let next: u128 = if delta >= 0 {
            (a + delta as u128) % c
        } else {
            let d: u128 = (0i64 - delta as i64) as u128;
            proof {
                lemma_step_mod(a as int, d as int, c as int);
            }
            (a + c - d % c) % c
        };
        vec![UiAction::SelectWindow(next as usize)]
    }

    /// Closes the active window.
    pub fn kill_active_window(&mut self) -> (r: Vec<UiAction>)
        ensures
            (final(self)@, r@) == spec_kill_active(old(self)@),
    {
        match self.first_active_window_row() {
            Some(i) => vec![UiAction::KillWindow(i)],
            None => {
                self.status = Some(UiNote::NoActiveWindow);
                Vec::new()
            },
        }
    }

    /// A key in navigation mode.
    fn navigation_key(&mut self, key: UiKey) -> (r: Vec<UiAction>)
        ensures
            (final(self)@, r@) == spec_navigation_key(old(self)@, key),
    {
        match key.code {
            Some(KeyInputCode::Char(c)) => if c == 'c' && key.modifiers == MOD_CONTROL {
                vec![UiAction::Quit]
            } else if c == 'q' {
                vec![UiAction::Quit]
            } else if c == 'n' {
                vec![UiAction::NewWindow]
            } else if c == '|' || c == 'v' || c == '-' || c == 'h' {
                self.status = Some(UiNote::SplitDeprecated);
                Vec::new()
            } else if c == 'x' {
                self.kill_active_window()
            } else if c == 'd' {
                vec![UiAction::Detach]
            } else {
                Vec::new()
            },
            Some(KeyInputCode::Esc) => vec![UiAction::Quit],
            Some(KeyInputCode::Tab) => self.select_adjacent_window(1),
            Some(KeyInputCode::PageUp) => vec![UiAction::Scroll(self.scroll_page_lines())],
            Some(KeyInputCode::PageDown) => {
                let lines = self.scroll_page_lines();
                let back: i32 = 0 - lines;
                vec![UiAction::Scroll(back)]
            },
            Some(KeyInputCode::Home) => vec![UiAction::Scroll(1_000_000)],
            Some(KeyInputCode::End) => vec![UiAction::Scroll(0)],
            Some(KeyInputCode::Left) => self.select_adjacent_window(-1),
            Some(KeyInputCode::Up) => self.select_adjacent_window(-1),
            Some(KeyInputCode::Right) => self.select_adjacent_window(1),
            Some(KeyInputCode::Down) => self.select_adjacent_window(1),
            _ => Vec::new(),
        }
    }

    /// A key press.
    pub fn key_event(&mut self, key: UiKey) -> (r: Vec<UiAction>)
        ensures
            (final(self)@, r@) == spec_key_event(old(self)@, key),
    {
        if let Some(actions) = self.handle_context_menu_key(key) {
            return actions;
        }
        if let Some(KeyInputCode::F(12)) = key.code {
            self.terminal_mode = !self.terminal_mode;
            self.status = Some(if self.terminal_mode {
                UiNote::TerminalMode
            } else {
                UiNote::NavigationMode
            });
            return Vec::new();
        }
        if key.code == Some(KeyInputCode::Char('n')) && key.modifiers == MOD_ALT {
            return vec![UiAction::NewWindow];
        }
        if key.code == Some(KeyInputCode::Left) && key.modifiers == MOD_ALT {
            return self.select_adjacent_window(-1);
        }
        if key.code == Some(KeyInputCode::Right) && key.modifiers == MOD_ALT {
            return self.select_adjacent_window(1);
        }
        if self.terminal_mode {
            self.send_terminal_key(key)
        } else {
            self.navigation_key(key)
        }
    }
}

/// What a failed multiplexer or clipboard call leaves in the status line.
pub open spec fn failed(m: UiView, op: UiOp, err: String) -> UiView {
    noted(m, UiNote::Failed(op, err))
}

/// A copy offered from the menu that put nothing on the clipboard says so.
pub open spec fn menu_copy_missed(m: UiView, from_menu: bool) -> UiView {
    if from_menu {
        noted(m, UiNote::NothingSelected)
    } else {
        m
    }
}

/// The selection's text has been fetched (or not): non-empty text goes on
/// to the clipboard.
pub open spec fn spec_selected_text_ready(m: UiView, result: Result<String, String>, from_menu: bool) -> (UiView, Seq<UiAction>) {
    match result {
        Err(_) => (menu_copy_missed(noted(m, UiNote::CopyNotReady), from_menu), seq![]),
        Ok(text) => if text@.len() == 0 {
            (menu_copy_missed(m, from_menu), seq![])
        } else {
            (m, seq![UiAction::CopyText { text, from_menu }])
        },
    }
}

impl UiModel {
    /// The text of the selection to copy, as the multiplexer returned it.
    pub fn selected_text_ready(&mut self, result: Result<String, String>, from_menu: bool) -> (r: Vec<UiAction>)
        ensures
            (final(self)@, r@) == spec_selected_text_ready(old(self)@, result, from_menu),
    {
        match result {
            Err(_) => {
                self.status = Some(UiNote::CopyNotReady);
                if from_menu {
                    self.status = Some(UiNote::NothingSelected);
                }
                Vec::new()
            },
            Ok(text) => if text.as_str().is_empty() {
                if from_menu {
                    self.status = Some(UiNote::NothingSelected);
                }
                Vec::new()
            } else {
                vec![UiAction::CopyText { text, from_menu }]
            },
        }
    }

    /// The clipboard took `text`, or refused it.
    pub fn report_clipboard_copy(&mut self, text: &str, from_menu: bool, result: Result<(), String>)
        ensures
            final(self)@ == match result {
                Ok(()) => noted(old(self)@, UiNote::Copied(text@.len() as usize)),
                Err(e) => menu_copy_missed(failed(old(self)@, UiOp::Copy, e), from_menu),
            },
    {
        match result {
            Ok(()) => {
                let chars = crate::text::chars_of(text);
                self.status = Some(UiNote::Copied(chars.len()));
            },
            Err(e) => {
                self.status = Some(UiNote::Failed(UiOp::Copy, e));
                if from_menu {
                    self.status = Some(UiNote::NothingSelected);
                }
            },
        }
    }

    /// What the clipboard held, for a paste into the terminal.
    pub fn clipboard_read(&mut self, result: Result<String, String>) -> (r: Vec<UiAction>)
        ensures
            match result {
                Err(e) => final(self)@ == failed(old(self)@, UiOp::Paste, e) && r@ == Seq::<UiAction>::empty(),
                Ok(text) => if text@.len() == 0 {
                    final(self)@ == noted(old(self)@, UiNote::ClipboardEmpty) && r@ == Seq::<UiAction>::empty()
                } else {
                    final(self)@ == old(self)@ && r@ == seq![UiAction::SendPaste { text, from_clipboard: true }]
                },
            },
    {
        match result {
            Err(e) => {
                self.status = Some(UiNote::Failed(UiOp::Paste, e));
                Vec::new()
            },
            Ok(text) => if text.as_str().is_empty() {
                self.status = Some(UiNote::ClipboardEmpty);
                Vec::new()
            } else {
                vec![UiAction::SendPaste { text, from_clipboard: true }]
            },
        }
    }

    /// The terminal took the pasted `text`, or refused it. A clipboard
    /// paste that arrived is highlighted and counted; a refused paste of
    /// the host terminal's text drops the highlight it was given.
    pub fn report_paste(&mut self, text: &str, from_clipboard: bool, result: Result<(), String>)
        ensures
            final(self)@ == match result {
                Ok(()) => if from_clipboard {
                    UiView {
                        paste_highlight_pending: true,
                        status: Some(UiNote::Pasted(text@.len() as usize)),
                        ..old(self)@
                    }
                } else {
                    old(self)@
                },
                Err(e) => if from_clipboard {
                    failed(old(self)@, UiOp::TerminalPaste, e)
                } else {
                    UiView { paste_highlight_pending: false, ..failed(old(self)@, UiOp::TerminalPaste, e) }
                },
            },
    {
        match result {
            Ok(()) => if from_clipboard {
                let chars = crate::text::chars_of(text);
                self.paste_highlight_pending = true;
                self.status = Some(UiNote::Pasted(chars.len()));
            },
            Err(e) => {
                if !from_clipboard {
                    self.paste_highlight_pending = false;
                }
                self.status = Some(UiNote::Failed(UiOp::TerminalPaste, e));
            },
        }
    }

    /// A forwarded key or mouse event that the terminal refused.
    pub fn report_input_failed(&mut self, op: UiOp, err: String)
        ensures
            final(self)@ == failed(old(self)@, op, err),
    {
        self.status = Some(UiNote::Failed(op, err));
    }

    /// A window switch, pane switch or new window: on success the selection
    /// goes and a fresh snapshot is taken.
    pub fn report_switch(&mut self, op: UiOp, result: Result<(), String>) -> (r: Vec<UiAction>)
        ensures
            final(self)@ == match result {
                Ok(()) => cleared(old(self)@),
                Err(e) => failed(old(self)@, op, e),
            },
            r@ == if result is Ok {
                seq![refresh_of(old(self)@)]
            } else {
                Seq::<UiAction>::empty()
            },
    {
        match result {
            Ok(()) => {
                self.clear_selection();
                vec![self.refresh()]
            },
            Err(e) => {
                self.status = Some(UiNote::Failed(op, e));
                Vec::new()
            },
        }
    }

    /// A window closed (its index) or not; on success a fresh snapshot is
    /// taken.
    pub fn report_kill_window(&mut self, result: Result<u32, String>) -> (r: Vec<UiAction>)
        ensures
            final(self)@ == match result {
                Ok(index) => cleared(noted(old(self)@, UiNote::KilledWindow(index))),
                Err(e) => failed(old(self)@, UiOp::KillWindow, e),
            },
            r@ == if result is Ok {
                seq![refresh_of(old(self)@)]
            } else {
                Seq::<UiAction>::empty()
            },
    {
        match result {
            Ok(index) => {
                self.status = Some(UiNote::KilledWindow(index));
                self.clear_selection();
                vec![self.refresh()]
            },
            Err(e) => {
                self.status = Some(UiNote::Failed(UiOp::KillWindow, e));
                Vec::new()
            },
        }
    }

    /// The active pane scrolled to `rows` above the live bottom, or not; on
    /// success a fresh snapshot is taken.
    pub fn report_scroll(&mut self, result: Result<usize, String>) -> (r: Vec<UiAction>)
        ensures
            final(self)@ == match result {
                Ok(rows) => noted(
                    cleared(old(self)@),
                    if rows == 0 {
                        UiNote::ScrollbackBottom
                    } else {
                        UiNote::Scrollback(rows)
                    },
                ),
                Err(e) => failed(old(self)@, UiOp::Scrollback, e),
            },
            r@ == if result is Ok {
                seq![refresh_of(old(self)@)]
            } else {
                Seq::<UiAction>::empty()
            },
    {
        match result {
            Ok(rows) => {
                self.clear_selection();
                self.status = Some(if rows == 0 {
                    UiNote::ScrollbackBottom
                } else {
                    UiNote::Scrollback(rows)
                });
                vec![self.refresh()]
            },
            Err(e) => {
                self.status = Some(UiNote::Failed(UiOp::Scrollback, e));
                Vec::new()
            },
        }
    }

    /// A fresh snapshot at the size of the terminal body (at least one cell
    /// each way).
    pub fn refresh(&self) -> (a: UiAction)
        ensures
            a == refresh_of(self@),
    {
        let body = self.regions.terminal_body;
        UiAction::Refresh {
            width: if body.width < 1 { 1 } else { body.width },
            height: if body.height < 1 { 1 } else { body.height },
        }
    }

    /// The multiplexer could not give a snapshot.
    pub fn report_sync_failed(&mut self, err: &str)
        ensures
            final(self)@ == (UiView { terminal_error: final(self)@.terminal_error, ..old(self)@ }),
            final(self)@.terminal_error matches Some(msg) && msg@ == "native mux backend failed: "@ + err@,
    {
        let mut msg = String::new();
        crate::text::push_str(&mut msg, "native mux backend failed: ");
        crate::text::push_str(&mut msg, err);
        self.terminal_error = Some(msg);
    }
}

/// The snapshot request after a change to the active terminal: the size of
/// the terminal body, at least one cell each way.
pub open spec fn refresh_of(m: UiView) -> UiAction {
    let body = m.regions.terminal_body;
    UiAction::Refresh {
        width: if body.width < 1 { 1 } else { body.width },
        height: if body.height < 1 { 1 } else { body.height },
    }
}

/// The forwarded form of a mouse event at pane cell `(row, col)`.
pub open spec fn spec_mouse_input(kind: MouseInputKind, row: u16, col: u16, modifiers: u8) -> MouseInput {
    MouseInput { kind, row, col, modifiers: modifiers & 15u8 }
}

/// Forwarding a mouse event drops the paste highlight.
pub open spec fn spec_send_mouse(m: UiView, kind: MouseInputKind, row: u16, col: u16, modifiers: u8) -> (UiView, Seq<UiAction>) {
    (
        UiView { paste_highlight_pending: false, ..m },
        seq![UiAction::SendMouse(spec_mouse_input(kind, row, col, modifiers))],
    )
}

/// Left then Right: moving the cursor away and back makes the shell drop
/// its paste highlight.
pub open spec fn highlight_clear_keys() -> Seq<UiAction> {
    seq![
        UiAction::SendKey(KeyInput { code: KeyInputCode::Left, modifiers: 0 }),
        UiAction::SendKey(KeyInput { code: KeyInputCode::Right, modifiers: 0 }),
    ]
}

/// A left press clears a pending paste highlight unless it lands on a pane
/// whose program tracks the mouse.
pub open spec fn spec_should_clear_highlight(m: UiView, e: UiMouse) -> bool {
    m.paste_highlight_pending && e.kind == MouseInputKind::Down(MouseInputButton::Left) && match spec_cell_at_pane(
        e.column,
        e.row,
        m.regions,
    ) {
        Some((pane, _, _)) => !spec_pane_mouse(m, pane),
        None => true,
    }
}

/// The mouse while the menu is open: hovering or pressing over an entry
/// selects it, releasing over it carries it out, pressing or releasing
/// elsewhere closes the menu, and a right press reopens it where it is.
pub open spec fn spec_menu_mouse(m: UiView, e: UiMouse) -> (UiView, Seq<UiAction>) {
    let hit = match first_menu_hit(e.column, e.row, m.regions, m.regions.context_menu_count as int) {
        Some(i) => Some(menu_action(i)),
        None => None,
    };
    if e.kind == MouseInputKind::Moved || e.kind == MouseInputKind::Drag(MouseInputButton::Left) {
        match hit {
            Some(a) => (spec_select_menu(m, a), seq![]),
            None => (m, seq![]),
        }
    } else if e.kind == MouseInputKind::Down(MouseInputButton::Left) {
        match hit {
            Some(a) => (spec_select_menu(m, a), seq![]),
            None => (spec_close_menu(m), seq![]),
        }
    } else if e.kind == MouseInputKind::Up(MouseInputButton::Left) {
        match hit {
            Some(a) => spec_perform_menu(m, a),
            None => (spec_close_menu(m), seq![]),
        }
    } else if e.kind == MouseInputKind::Down(MouseInputButton::Right) {
        (spec_open_menu(m, e.column, e.row), seq![])
    } else {
        (m, seq![])
    }
}

/// A held-back press resolved by the next event: a drag turns it into a
/// selection from the pressed cell, a release forwards the click to a
/// program that wants it, and anything else forgets it and is handled as
/// usual (`None`).
pub open spec fn spec_pending(m: UiView, e: UiMouse) -> (UiView, Option<Seq<UiAction>>) {
    match m.pending_left_down {
        None => (m, None),
        Some(p) => if e.kind == MouseInputKind::Drag(MouseInputButton::Left) {
            match spec_cell_for_pane(e.column, e.row, m.regions, p.pane) {
                None => (UiView { pending_left_down: None, ..m }, Some(seq![])),
                Some((row, col)) => (
                    spec_update_selection(
                        UiView {
                            terminal_mode: true,
                            pending_left_down: None,
                            selection: Some(SelectionState { pane: p.pane, anchor: (p.row, p.col), focus: (p.row, p.col), dragging: false }),
                            ..m
                        },
                        row,
                        col,
                    ),
                    Some(seq![]),
                ),
            }
        } else if e.kind == MouseInputKind::Up(MouseInputButton::Left) {
            let m1 = UiView { pending_left_down: None, ..m };
            if p.child_wants_mouse && m.terminal_mode {
                let up = match spec_cell_for_pane(e.column, e.row, m.regions, p.pane) {
                    Some(cell) => cell,
                    None => (p.row, p.col),
                };
                (
                    UiView { paste_highlight_pending: false, ..m1 },
                    Some(seq![
                        UiAction::SendMouse(spec_mouse_input(MouseInputKind::Down(MouseInputButton::Left), p.row, p.col, p.modifiers)),
                        UiAction::SendMouse(spec_mouse_input(MouseInputKind::Up(MouseInputButton::Left), up.0, up.1, e.modifiers)),
                    ]),
                )
            } else {
                (m1, Some(seq![]))
            }
        } else {
            (UiView { pending_left_down: None, ..m }, None)
        },
    }
}

/// The mouse over pane cell `(row, col)` of pane `pane`, once that pane is
/// active: without mouse tracking the wheel scrolls history; a left press
/// starts a selection (or, when the program tracks the mouse and Shift is
/// not held, is held back); in terminal mode everything else is forwarded.
/// `None`: not handled here.
pub open spec fn spec_on_pane(m: UiView, e: UiMouse, pane: usize, row: u16, col: u16) -> Option<(UiView, Seq<UiAction>)> {
    let child = spec_pane_mouse(m, pane);
    if !child && (e.kind == MouseInputKind::ScrollUp || e.kind == MouseInputKind::ScrollDown) {
        let switch = if spec_pane_active(m, pane) {
            seq![]
        } else {
            seq![UiAction::SelectPane(pane)]
        };
        Some((m, switch.push(UiAction::Scroll(if e.kind == MouseInputKind::ScrollUp { 3i32 } else { -3i32 }))))
    } else if e.kind == MouseInputKind::Down(MouseInputButton::Left) {
        let m1 = UiView { terminal_mode: true, ..m };
        if has_mod(e.modifiers, MOD_SHIFT) || !child {
            Some((
                UiView {
                    pending_left_down: None,
                    selection: Some(SelectionState { pane, anchor: (row, col), focus: (row, col), dragging: false }),
                    ..m1
                },
                seq![],
            ))
        } else {
            Some((
                UiView {
                    pending_left_down: Some(PendingMouseDown { pane, row, col, modifiers: e.modifiers, child_wants_mouse: child }),
                    ..m1
                },
                seq![],
            ))
        }
    } else if m.terminal_mode {
        Some(spec_send_mouse(m, e.kind, row, col, e.modifiers))
    } else {
        None
    }
}

/// Outside the panes the pointer moves the hover highlight, and a left
/// press acts on what it lands on.
pub open spec fn spec_hover_click(m: UiView, e: UiMouse) -> (UiView, Seq<UiAction>) {
    let hit = spec_hit_test(e.column, e.row, m.regions);
    let m1 = UiView { hover: hit, ..m };
    if e.kind == MouseInputKind::Down(MouseInputButton::Left) {
        match hit {
            Some(Hotspot::DetachButton) => (m1, seq![UiAction::Detach]),
            Some(Hotspot::StatusPanel) => (m1, seq![UiAction::Scroll(0)]),
            Some(Hotspot::MainPane) => (
                UiView { terminal_mode: true, status: Some(UiNote::TerminalModeHint), ..m1 },
                seq![],
            ),
            Some(Hotspot::WindowClose(i)) => (m1, seq![UiAction::KillWindow(i)]),
            Some(Hotspot::Window(i)) => (m1, seq![UiAction::SelectWindow(i)]),
            Some(Hotspot::NewWindow) => (m1, seq![UiAction::NewWindow]),
            _ => (m1, seq![]),
        }
    } else {
        (m1, seq![])
    }
}

/// The pane part of the handling, then the rest of the screen.
pub open spec fn spec_pane_then_screen(m: UiView, e: UiMouse) -> (UiView, Seq<UiAction>) {
    match spec_cell_at_pane(e.column, e.row, m.regions) {
        Some((pane, row, col)) => match spec_on_pane(m, e, pane, row, col) {
            Some(res) => res,
            None => spec_hover_click(m, e),
        },
        None => spec_hover_click(m, e),
    }
}

/// After the paste highlight and a held-back press are dealt with: a drag
/// or release extends or ends the selection within its own pane; a left
/// press on an inactive pane first switches to it (and is handed back);
/// then the pane and screen handling.
pub open spec fn spec_after_pending(m: UiView, e: UiMouse) -> (UiView, Seq<UiAction>) {
    let sel_cell = match m.selection {
        Some(s) => spec_cell_for_pane(e.column, e.row, m.regions, s.pane),
        None => None,
    };
    if e.kind == MouseInputKind::Drag(MouseInputButton::Left) && sel_cell is Some {
        (spec_update_selection(m, sel_cell.unwrap().0, sel_cell.unwrap().1), seq![])
    } else if e.kind == MouseInputKind::Up(MouseInputButton::Left) && sel_cell is Some {
        (spec_finish_selection(m, sel_cell.unwrap().0, sel_cell.unwrap().1), seq![])
    } else {
        match spec_cell_at_pane(e.column, e.row, m.regions) {
            Some((pane, _, _)) => if e.kind == MouseInputKind::Down(MouseInputButton::Left) && !spec_pane_active(m, pane) {
                (m, seq![UiAction::SelectPane(pane), UiAction::ResumeMouse(e)])
            } else {
                spec_pane_then_screen(m, e)
            },
            None => spec_hover_click(m, e),
        }
    }
}

/// A mouse event: the open menu takes it; a right press opens the menu;
/// then the paste highlight, a held-back press, the selection, the panes
/// and the rest of the screen, in that order.
pub open spec fn spec_mouse_event(m: UiView, e: UiMouse) -> (UiView, Seq<UiAction>) {
    if m.context_menu is Some {
        spec_menu_mouse(m, e)
    } else if e.kind == MouseInputKind::Down(MouseInputButton::Right) {
        (spec_open_menu(m, e.column, e.row), seq![])
    } else if e.kind == MouseInputKind::Up(MouseInputButton::Right) || e.kind == MouseInputKind::Drag(
        MouseInputButton::Right,
    ) {
        (m, seq![])
    } else {
        let clear = spec_should_clear_highlight(m, e);
        let m1 = if clear {
            UiView { paste_highlight_pending: false, ..m }
        } else {
            m
        };
        let a1 = if clear {
            highlight_clear_keys()
        } else {
            seq![]
        };
        let (m2, handled) = spec_pending(m1, e);
        match handled {
            Some(a2) => (m2, a1 + a2),
            None => {
                let (m3, a3) = spec_after_pending(m2, e);
                (m3, a1 + a3)
            },
        }
    }
}

impl UiModel {
    /// Forwards a mouse event at a pane cell.
    pub fn send_terminal_mouse(&mut self, kind: MouseInputKind, row: u16, col: u16, modifiers: u8) -> (r: Vec<UiAction>)
        ensures
            (final(self)@, r@) == spec_send_mouse(old(self)@, kind, row, col, modifiers),
    {
        self.paste_highlight_pending = false;
        vec![UiAction::SendMouse(MouseInput { kind, row, col, modifiers: modifiers & 15u8 })]
    }

    /// Whether a click should clear a pending paste highlight.
    pub fn should_clear_paste_highlight_for_click(&self, e: &UiMouse) -> (b: bool)
        requires
            regions_ok(self.regions),
        ensures
            b == spec_should_clear_highlight(self@, *e),
    {
        if !self.paste_highlight_pending || e.kind != MouseInputKind::Down(MouseInputButton::Left) {
            return false;
        }
        match terminal_cell_at_pane(e.column, e.row, &self.regions) {
            Some((pane, _, _)) => !self.pane_mouse_protocol_active(pane),
            None => true,
        }
    }

    /// Drops a pending paste highlight by moving the shell's cursor away and
    /// back.
    pub fn clear_paste_highlight_on_click(&mut self) -> (r: Vec<UiAction>)
        ensures
            old(self).paste_highlight_pending ==> final(self)@ == (UiView { paste_highlight_pending: false, ..old(self)@ })
                && r@ == highlight_clear_keys(),
            !old(self).paste_highlight_pending ==> final(self)@ == old(self)@ && r@ == Seq::<UiAction>::empty(),
    {
        if !self.paste_highlight_pending {
            return Vec::new();
        }
        self.paste_highlight_pending = false;
        vec![
            UiAction::SendKey(KeyInput { code: KeyInputCode::Left, modifiers: 0 }),
            UiAction::SendKey(KeyInput { code: KeyInputCode::Right, modifiers: 0 }),
        ]
    }

    /// The mouse while the menu is open.
    fn handle_context_menu_mouse(&mut self, e: UiMouse) -> (r: Vec<UiAction>)
        requires
            regions_ok(old(self).regions),
        ensures
            (final(self)@, r@) == spec_menu_mouse(old(self)@, e),
    {
        let hit = context_menu_action_at(e.column, e.row, &self.regions);
        if e.kind == MouseInputKind::Moved || e.kind == MouseInputKind::Drag(MouseInputButton::Left) {
            if let Some(a) = hit {
                self.select_context_menu_action(a);
            }
            Vec::new()
        } else if e.kind == MouseInputKind::Down(MouseInputButton::Left) {
            match hit {
                Some(a) => self.select_context_menu_action(a),
                None => self.close_context_menu(),
            }
            Vec::new()
        } else if e.kind == MouseInputKind::Up(MouseInputButton::Left) {
            match hit {
                Some(a) => self.perform_context_menu_action(a),
                None => {
                    self.close_context_menu();
                    Vec::new()
                },
            }
        } else if e.kind == MouseInputKind::Down(MouseInputButton::Right) {
            self.open_context_menu(e.column, e.row);
            Vec::new()
        } else {
            Vec::new()
        }
    }

    /// Resolves a held-back press; `None` when there was none, or the event
    /// goes on to the ordinary handling.
    pub fn handle_pending_left_down(&mut self, e: &UiMouse) -> (r: Option<Vec<UiAction>>)
        requires
            regions_ok(old(self).regions),
        ensures
            final(self)@ == spec_pending(old(self)@, *e).0,
            match spec_pending(old(self)@, *e).1 {
                Some(acts) => r matches Some(v) && v@ == acts,
                None => r is None,
            },
    {
        let p = match self.pending_left_down {
            Some(p) => p,
            None => return None,
        };
        if e.kind == MouseInputKind::Drag(MouseInputButton::Left) {
            match terminal_cell_for_pane(e.column, e.row, &self.regions, p.pane) {
                None => {
                    self.pending_left_down = None;
                    Some(Vec::new())
                },
                Some((row, col)) => {
                    self.terminal_mode = true;
                    self.begin_selection(p.pane, p.row, p.col);
                    self.update_selection(row, col);
                    Some(Vec::new())
                },
            }
        } else if e.kind == MouseInputKind::Up(MouseInputButton::Left) {
            self.pending_left_down = None;
            if p.child_wants_mouse && self.terminal_mode {
                let up = match terminal_cell_for_pane(e.column, e.row, &self.regions, p.pane) {
                    Some(cell) => cell,
                    None => (p.row, p.col),
                };
                let mut acts = self.send_terminal_mouse(MouseInputKind::Down(MouseInputButton::Left), p.row, p.col, p.modifiers);
                let mut more = self.send_terminal_mouse(MouseInputKind::Up(MouseInputButton::Left), up.0, up.1, e.modifiers);
                acts.append(&mut more);
                Some(acts)
            } else {
                Some(Vec::new())
            }
        } else {
            self.pending_left_down = None;
            None
        }
    }

    fn on_pane(&mut self, e: UiMouse, pane: usize, row: u16, col: u16) -> (r: Option<Vec<UiAction>>)
        ensures
            match spec_on_pane(old(self)@, e, pane, row, col) {
                Some(res) => r matches Some(v) && (final(self)@, v@) == res,
                None => r is None && final(self)@ == old(self)@,
            },
    {
        let child = self.pane_mouse_protocol_active(pane);
        if !child && (e.kind == MouseInputKind::ScrollUp || e.kind == MouseInputKind::ScrollDown) {
            let mut acts: Vec<UiAction> = Vec::new();
            if !self.pane_active(pane) {
                acts.push(UiAction::SelectPane(pane));
            }
            acts.push(UiAction::Scroll(if e.kind == MouseInputKind::ScrollUp { 3i32 } else { -3i32 }));
            proof {
                let switch = if spec_pane_active(old(self)@, pane) {
                    seq![]
                } else {
                    seq![UiAction::SelectPane(pane)]
                };
                assert(acts@ =~= switch.push(UiAction::Scroll(if e.kind == MouseInputKind::ScrollUp { 3i32 } else { -3i32 })));
            }
            Some(acts)
        } else if e.kind == MouseInputKind::Down(MouseInputButton::Left) {
            self.terminal_mode = true;
            if e.modifiers & MOD_SHIFT != 0 || !child {
                self.begin_selection(pane, row, col);
            } else {
                self.pending_left_down = Some(PendingMouseDown { pane, row, col, modifiers: e.modifiers, child_wants_mouse: child });
            }
            Some(Vec::new())
        } else if self.terminal_mode {
            Some(self.send_terminal_mouse(e.kind, row, col, e.modifiers))
        } else {
            None
        }
    }

    fn hover_click(&mut self, e: UiMouse) -> (r: Vec<UiAction>)
        requires
            regions_ok(old(self).regions),
        ensures
            (final(self)@, r@) == spec_hover_click(old(self)@, e),
    {
        let hit = hit_test(e.column, e.row, &self.regions);
        self.hover = hit;
        if e.kind != MouseInputKind::Down(MouseInputButton::Left) {
            return Vec::new();
        }
        match hit {
            Some(Hotspot::DetachButton) => vec![UiAction::Detach],
            Some(Hotspot::StatusPanel) => vec![UiAction::Scroll(0)],
            Some(Hotspot::MainPane) => {
                self.terminal_mode = true;
                self.status = Some(UiNote::TerminalModeHint);
                Vec::new()
            },
            Some(Hotspot::WindowClose(i)) => vec![UiAction::KillWindow(i)],
            Some(Hotspot::Window(i)) => vec![UiAction::SelectWindow(i)],
            Some(Hotspot::NewWindow) => vec![UiAction::NewWindow],
            _ => Vec::new(),
        }
    }

    fn pane_then_screen(&mut self, e: UiMouse) -> (r: Vec<UiAction>)
        requires
            regions_ok(old(self).regions),
        ensures
            (final(self)@, r@) == spec_pane_then_screen(old(self)@, e),
    {
        match terminal_cell_at_pane(e.column, e.row, &self.regions) {
            Some((pane, row, col)) => match self.on_pane(e, pane, row, col) {
                Some(acts) => acts,
                None => self.hover_click(e),
            },
            None => self.hover_click(e),
        }
    }

    fn after_pending(&mut self, e: UiMouse) -> (r: Vec<UiAction>)
        requires
            regions_ok(old(self).regions),
        ensures
            (final(self)@, r@) == spec_after_pending(old(self)@, e),
    {
        let sel_cell = match self.selection {
            Some(s) => terminal_cell_for_pane(e.column, e.row, &self.regions, s.pane),
            None => None,
        };
        if e.kind == MouseInputKind::Drag(MouseInputButton::Left) && sel_cell.is_some() {
            let (row, col) = sel_cell.unwrap();
            self.update_selection(row, col);
            return Vec::new();
        }
        if e.kind == MouseInputKind::Up(MouseInputButton::Left) && sel_cell.is_some() {
            let (row, col) = sel_cell.unwrap();
            self.finish_selection(row, col);
            return Vec::new();
        }
        match terminal_cell_at_pane(e.column, e.row, &self.regions) {
            Some((pane, _, _)) => if e.kind == MouseInputKind::Down(MouseInputButton::Left) && !self.pane_active(pane) {
                vec![UiAction::SelectPane(pane), UiAction::ResumeMouse(e)]
            } else {
                self.pane_then_screen(e)
            },
            None => self.hover_click(e),
        }
    }

    /// A mouse event.
    pub fn mouse_event(&mut self, e: UiMouse) -> (r: Vec<UiAction>)
        requires
            regions_ok(old(self).regions),
        ensures
            (final(self)@, r@) == spec_mouse_event(old(self)@, e),
    {
        if self.context_menu.is_some() {
            return self.handle_context_menu_mouse(e);
        }
        if e.kind == MouseInputKind::Down(MouseInputButton::Right) {
            self.open_context_menu(e.column, e.row);
            return Vec::new();
        }
        if e.kind == MouseInputKind::Up(MouseInputButton::Right) || e.kind == MouseInputKind::Drag(MouseInputButton::Right) {
            return Vec::new();
        }
        let mut acts = if self.should_clear_paste_highlight_for_click(&e) {
            self.clear_paste_highlight_on_click()
        } else {
            Vec::new()
        };
        match self.handle_pending_left_down(&e) {
            Some(mut more) => {
                acts.append(&mut more);
                acts
            },
            None => {
                let mut more = self.after_pending(e);
                acts.append(&mut more);
                acts
            },
        }
    }

    /// Picks a left press up again after the pane switch it asked for.
    pub fn resume_mouse(&mut self, e: UiMouse) -> (r: Vec<UiAction>)
        requires
            regions_ok(old(self).regions),
        ensures
            (final(self)@, r@) == spec_pane_then_screen(old(self)@, e),
    {
        self.pane_then_screen(e)
    }
}

impl UiModel {
    /// Text the host terminal pasted: forwarded in terminal mode, ignored in
    /// navigation mode.
    pub fn paste_event(&mut self, text: &str) -> (r: Vec<UiAction>)
        ensures
            !old(self).terminal_mode ==> final(self)@ == old(self)@ && r@ == Seq::<UiAction>::empty(),
            old(self).terminal_mode ==> final(self)@ == (UiView {
                paste_highlight_pending: text@.len() > 0,
                ..cleared(old(self)@)
            }) && r@.len() == 1 && (r@[0] matches UiAction::SendPaste { text: t, from_clipboard } && t@ == text@
                && !from_clipboard),
    {
        if self.terminal_mode {
            self.send_terminal_paste(text)
        } else {
            Vec::new()
        }
    }
}

/// The words that open the report of a failed operation.
pub open spec fn op_prefix(op: UiOp) -> Seq<char> {
    match op {
        UiOp::Copy => "copy failed: "@,
        UiOp::Paste => "paste failed: "@,
        UiOp::TerminalPaste => "terminal paste failed: "@,
        UiOp::TerminalInput => "terminal input failed: "@,
        UiOp::TerminalMouse => "terminal mouse failed: "@,
        UiOp::SelectWindow => "select-window failed: "@,
        UiOp::KillWindow => "kill-window failed: "@,
        UiOp::SelectPane => "select-pane failed: "@,
        UiOp::Scrollback => "scrollback failed: "@,
        UiOp::NewWindow => "new-window failed: "@,
    }
}

/// The status line's text for a note.
pub open spec fn note_text(n: UiNote) -> Seq<char> {
    match n {
        UiNote::TerminalMode => "terminal mode"@,
        UiNote::NavigationMode => "navigation mode"@,
        UiNote::TerminalModeHint => "terminal mode (F12 returns to navigation)"@,
        UiNote::ShortcutIgnored => "shortcut ignored"@,
        UiNote::NothingSelected => "nothing selected"@,
        UiNote::ContextMenuCancelled => "context menu cancelled"@,
        UiNote::SplitDeprecated => "split panes are deprecated; use windows"@,
        UiNote::NoWindows => "no windows"@,
        UiNote::OnlyOneWindow => "only one window"@,
        UiNote::NoActiveWindow => "no active window"@,
        UiNote::ClipboardEmpty => "clipboard is empty"@,
        UiNote::CopyNotReady => "copy failed: terminal is not ready"@,
        UiNote::ScrollbackBottom => "scrollback bottom"@,
        UiNote::Copied(k) => "copied "@ + dec_digits(k as nat) + " chars"@,
        UiNote::Pasted(k) => "pasted "@ + dec_digits(k as nat) + " chars"@,
        UiNote::Scrollback(k) => "scrollback "@ + dec_digits(k as nat) + " rows"@,
        UiNote::KilledWindow(i) => "killed window "@ + dec_digits(i as nat),
        UiNote::Failed(op, e) => op_prefix(op) + e@,
    }
}

fn op_prefix_str(op: UiOp) -> (r: &'static str)
    ensures
        r@ == op_prefix(op),
{
    match op {
            UiOp::Copy => "copy failed: ",
            UiOp::Paste => "paste failed: ",
            UiOp::TerminalPaste => "terminal paste failed: ",
            UiOp::TerminalInput => "terminal input failed: ",
            UiOp::TerminalMouse => "terminal mouse failed: ",
            UiOp::SelectWindow => "select-window failed: ",
            UiOp::KillWindow => "kill-window failed: ",
            UiOp::SelectPane => "select-pane failed: ",
            UiOp::Scrollback => "scrollback failed: ",
            UiOp::NewWindow => "new-window failed: ",
    }
}

impl UiNote {
    /// The status line's text.
    pub fn text(&self) -> (r: String)
        ensures
            r@ == note_text(*self),
    {
        let mut out = String::new();
        match self {
            UiNote::TerminalMode => push_str(&mut out, "terminal mode"),
            UiNote::NavigationMode => push_str(&mut out, "navigation mode"),
            UiNote::TerminalModeHint => push_str(&mut out, "terminal mode (F12 returns to navigation)"),
            UiNote::ShortcutIgnored => push_str(&mut out, "shortcut ignored"),
            UiNote::NothingSelected => push_str(&mut out, "nothing selected"),
            UiNote::ContextMenuCancelled => push_str(&mut out, "context menu cancelled"),
            UiNote::SplitDeprecated => push_str(&mut out, "split panes are deprecated; use windows"),
            UiNote::NoWindows => push_str(&mut out, "no windows"),
            UiNote::OnlyOneWindow => push_str(&mut out, "only one window"),
            UiNote::NoActiveWindow => push_str(&mut out, "no active window"),
            UiNote::ClipboardEmpty => push_str(&mut out, "clipboard is empty"),
            UiNote::CopyNotReady => push_str(&mut out, "copy failed: terminal is not ready"),
            UiNote::ScrollbackBottom => push_str(&mut out, "scrollback bottom"),
            UiNote::Copied(k) => {
                push_str(&mut out, "copied ");
                push_decimal(&mut out, *k as u128);
                push_str(&mut out, " chars");
            },
            UiNote::Pasted(k) => {
                push_str(&mut out, "pasted ");
                push_decimal(&mut out, *k as u128);
                push_str(&mut out, " chars");
            },
            UiNote::Scrollback(k) => {
                push_str(&mut out, "scrollback ");
                push_decimal(&mut out, *k as u128);
                push_str(&mut out, " rows");
            },
            UiNote::KilledWindow(i) => {
                push_str(&mut out, "killed window ");
                push_decimal(&mut out, *i as u128);
            },
            UiNote::Failed(op, e) => {
                push_str(&mut out, op_prefix_str(*op));
                push_str(&mut out, e.as_str());
            },
        }
        out
    }
}

/// Whatever key is forwarded to the terminal, no selection survives it.
pub proof fn forwarded_key_clears_selection(m: UiView, key: UiKey)
    ensures
        (exists|i: int| 0 <= i < spec_key_event(m, key).1.len() && #[trigger] spec_key_event(m, key).1[i] is SendKey)
            ==> spec_key_event(m, key).0.selection is None,
{
    if exists|i: int| 0 <= i < spec_key_event(m, key).1.len() && #[trigger] spec_key_event(m, key).1[i] is SendKey {
        let i = choose|i: int| 0 <= i < spec_key_event(m, key).1.len() && #[trigger] spec_key_event(m, key).1[i] is SendKey;
        if let Some(menu) = m.context_menu {
            let idx = spec_menu_index(menu.selected);
            assert(!(spec_key_event(m, key).1[i] is SendKey));
        }
    }
}

/// A selection that outlives the release of the button covers more than
/// one cell and is no longer being dragged.
pub proof fn finished_selection_is_not_empty(m: UiView, row: u16, col: u16)
    ensures
        spec_finish_selection(m, row, col).selection matches Some(s) ==> s.anchor != s.focus && !s.dragging,
{
}

/// Moving down through the menu three times comes back to the same entry,
/// and moving up undoes moving down.
pub proof fn menu_moves_cycle(a: ContextMenuAction)
    ensures
        menu_action(((spec_menu_index(menu_action(((spec_menu_index(menu_action(((spec_menu_index(a) + 1) % 3) as int)) + 1) % 3) as int)) + 1) % 3) as int) == a,
        menu_action(((spec_menu_index(menu_action(((spec_menu_index(a) + 1) % 3) as int)) + 2) % 3) as int) == a,
{
}

/// Handling a key, a mouse event or a resumed press never moves what the
/// last frame drew: only drawing changes the regions.
pub proof fn events_keep_regions(m: UiView, key: UiKey, e: UiMouse)
    ensures
        spec_key_event(m, key).0.regions == m.regions,
        spec_mouse_event(m, e).0.regions == m.regions,
        spec_pane_then_screen(m, e).0.regions == m.regions,
{
}

/// In terminal mode with no menu open, Ctrl-C copies the selection when
/// there is one and then reaches nothing else; without a selection it goes
/// to the program in the terminal.
pub proof fn control_c_copies_only_a_selection(m: UiView)
    requires
        m.terminal_mode,
        m.context_menu is None,
    ensures
        spec_selection_range(m) matches Some(range) ==> spec_key_event(
            m,
            (UiKey { code: Some(KeyInputCode::Char('c')), modifiers: MOD_CONTROL }),
        ).1 == seq![UiAction::CopySelection { range, from_menu: false }],
        spec_selection_range(m) is None ==> spec_key_event(
            m,
            (UiKey { code: Some(KeyInputCode::Char('c')), modifiers: MOD_CONTROL }),
        ).1 == seq![UiAction::SendKey(KeyInput { code: KeyInputCode::Char('c'), modifiers: MOD_CONTROL })],
{
    let key = UiKey { code: Some(KeyInputCode::Char('c')), modifiers: MOD_CONTROL };
    assert(ascii_folded('c') == ascii_folded('c'));
    assert(spec_copy_shortcut(key));
    assert(!spec_shortcut_char(key, 'v'));
    assert(2u8 & 8u8 == 0u8) by (bit_vector);
    assert(2u8 & 15u8 == 2u8) by (bit_vector);
}

/// In navigation mode with no menu open, End and Home scroll the active
/// pane to opposite ends of its history: End to the live bottom and Home to
/// the top, whatever position it had; neither changes the model.
pub proof fn end_and_home_scroll_to_opposite_ends(m: UiView, current: usize)
    requires
        !m.terminal_mode,
        m.context_menu is None,
    ensures
        ({
            let (m_end, end) = spec_key_event(m, (UiKey { code: Some(KeyInputCode::End), modifiers: NO_MODIFIERS }));
            &&& m_end == m
            &&& end == seq![UiAction::Scroll(0)]
            &&& end[0] matches UiAction::Scroll(lines) && crate::terminal::spec_scroll_target(current, lines) == 0
        }),
        ({
            let (m_home, home) = spec_key_event(m, (UiKey { code: Some(KeyInputCode::Home), modifiers: NO_MODIFIERS }));
            &&& m_home == m
            &&& home == seq![UiAction::Scroll(1_000_000)]
            &&& home[0] matches UiAction::Scroll(lines) && crate::terminal::spec_scroll_target(current, lines)
                == usize::MAX
        }),
{
}

/// In navigation mode with no menu open: `q` and Escape quit, `n` opens a
/// window, `d` detaches, each leaving the model as it is; Page Up scrolls
/// into history by at least one line and less than the pane's height, and
/// Page Down scrolls back by the same amount.
pub proof fn navigation_commands(m: UiView)
    requires
        !m.terminal_mode,
        m.context_menu is None,
    ensures
        spec_key_event(m, (UiKey { code: Some(KeyInputCode::Char('q')), modifiers: NO_MODIFIERS })) == (m, seq![UiAction::Quit]),
        spec_key_event(m, (UiKey { code: Some(KeyInputCode::Esc), modifiers: NO_MODIFIERS })) == (m, seq![UiAction::Quit]),
        spec_key_event(m, (UiKey { code: Some(KeyInputCode::Char('n')), modifiers: NO_MODIFIERS })) == (m, seq![UiAction::NewWindow]),
        spec_key_event(m, (UiKey { code: Some(KeyInputCode::Char('d')), modifiers: NO_MODIFIERS })) == (m, seq![UiAction::Detach]),
        ({
            let up = spec_key_event(m, (UiKey { code: Some(KeyInputCode::PageUp), modifiers: NO_MODIFIERS })).1;
            let down = spec_key_event(m, (UiKey { code: Some(KeyInputCode::PageDown), modifiers: NO_MODIFIERS })).1;
            &&& up.len() == 1 && down.len() == 1
            &&& up[0] matches UiAction::Scroll(a) && down[0] matches UiAction::Scroll(b) && a >= 1 && b == -a
                && a < 65535
        }),
{
}

} // verus!
