//! Window bookkeeping of the multiplexer: an ordered window list with one
//! active window, each window holding panes that own a terminal.

use vstd::prelude::*;

use crate::text::push_decimal;

verus! {

/// A window as the UI lists it.
#[derive(Debug, Clone, PartialEq, Eq)]
pub struct Window {
    pub index: u32,
    pub name: String,
    pub active: bool,
    pub panes: u32,
}

/// A pane as the UI lists it.
#[derive(Debug, Clone, PartialEq, Eq)]
pub struct Pane {
    pub index: u32,
    pub title: String,
    pub active: bool,
}

/// How panes of a window are laid out.
#[derive(Debug, Clone, Copy, PartialEq, Eq, Structural)]
pub enum PaneAxis {
    Columns,
    Rows,
}

impl Default for PaneAxis {
    fn default() -> (a: Self)
        ensures
            a == PaneAxis::Columns,
    {
        PaneAxis::Columns
    }
}

/// A pane's rectangle inside the terminal area.
#[derive(Debug, Clone, Copy, PartialEq, Eq, Structural)]
pub struct PaneRect {
    pub x: u16,
    pub y: u16,
    pub width: u16,
    pub height: u16,
}

impl PaneRect {
    pub fn new(x: u16, y: u16, width: u16, height: u16) -> (r: Self)
        ensures
            r == (PaneRect { x, y, width, height }),
    {
        PaneRect { x, y, width, height }
    }
}

/// A separator line between panes.
#[derive(Debug, Clone, Copy, PartialEq, Eq, Structural)]
pub struct PaneSeparator {
    pub axis: PaneAxis,
    pub x: u16,
    pub y: u16,
    pub width: u16,
    pub height: u16,
}

/// Why a window or pane request was refused.
#[derive(Debug, Clone, Copy, PartialEq, Eq, Structural)]
pub enum MuxError {
    /// There is no window at this row.
    WindowMissing(usize),
    /// There is no active window.
    NoActiveWindow,
    /// The active window has no pane at this row.
    PaneMissing(usize),
}

impl MuxError {
    /// The message shown to the user.
    pub fn message(&self) -> (s: String)
        ensures
            s@ == spec_error_message(*self),
    {
        let mut s = String::new();
        match self {
            MuxError::WindowMissing(row) => {
                crate::text::push_str(&mut s, "window row ");
                push_decimal(&mut s, *row as u128);
                crate::text::push_str(&mut s, " does not exist");
            },
            MuxError::NoActiveWindow => {
                crate::text::push_str(&mut s, "no active window");
            },
            MuxError::PaneMissing(row) => {
                crate::text::push_str(&mut s, "pane row ");
                push_decimal(&mut s, *row as u128);
                crate::text::push_str(&mut s, " does not exist");
            },
        }
        s
    }
}

/// The message for a refused request.
pub open spec fn spec_error_message(e: MuxError) -> Seq<char> {
    match e {
        MuxError::WindowMissing(row) => "window row "@ + crate::text::dec_digits(row as nat)
            + " does not exist"@,
        MuxError::NoActiveWindow => "no active window"@,
        MuxError::PaneMissing(row) => "pane row "@ + crate::text::dec_digits(row as nat)
            + " does not exist"@,
    }
}

/// A pane: its number in the window, its default title, and the id of the
/// terminal it shows.
#[derive(Debug, Clone, PartialEq, Eq)]
pub struct NativePane {
    pub index: u32,
    pub title: String,
    pub terminal: u64,
}

/// A window: its number, its default name, its panes and the active pane.
#[derive(Debug, Clone, PartialEq, Eq)]
pub struct NativeWindow {
    pub index: u32,
    pub name: String,
    pub panes: Vec<NativePane>,
    pub active_pane: usize,
}

/// The window list of the multiplexer. Terminals are referred to by id; the
/// caller owns the terminal processes.
pub struct NativeMux {
    windows: Vec<NativeWindow>,
    active_window: usize,
    next_terminal_id: u64,
}

/// The state of the window list: the windows, the active row, and the next
/// terminal id to hand out.
pub struct MuxView {
    pub windows: Seq<NativeWindow>,
    pub active: nat,
    pub next_terminal_id: nat,
}

impl View for NativeMux {
    type V = MuxView;

    closed spec fn view(&self) -> MuxView {
        MuxView {
            windows: self.windows@,
            active: self.active_window as nat,
            next_terminal_id: self.next_terminal_id as nat,
        }
    }
}

/// Every window has a pane, a window's active pane exists, and its
/// terminals have ids below `next`.
pub open spec fn window_wf(w: NativeWindow, next: nat) -> bool {
    &&& w.panes@.len() >= 1
    &&& w.active_pane < w.panes@.len()
    &&& forall|p: int| 0 <= p < w.panes@.len() ==> (#[trigger] w.panes@[p]).terminal < next
}

/// There is at least one window, the active window exists, every window is
/// well formed, and every terminal id was handed out before.
pub open spec fn mux_wf(v: MuxView) -> bool {
    &&& v.windows.len() >= 1
    &&& v.active < v.windows.len()
    &&& forall|i: int| 0 <= i < v.windows.len() ==> window_wf(#[trigger] v.windows[i], v.next_terminal_id)
}

/// The default name of window `index`: `shell` for the first, `shell-N`
/// otherwise.
pub open spec fn default_window_name(index: u32) -> Seq<char> {
    if index == 1 {
        seq!['s', 'h', 'e', 'l', 'l']
    } else {
        seq!['s', 'h', 'e', 'l', 'l', '-'] + crate::text::dec_digits(index as nat)
    }
}

/// The default title of the first pane of window `index`: `shell-N`.
pub open spec fn default_pane_title(index: u32) -> Seq<char> {
    seq!['s', 'h', 'e', 'l', 'l', '-'] + crate::text::dec_digits(index as nat)
}

/// A window as the UI lists it, given the title its active pane's terminal
/// reports (if any).
pub open spec fn spec_window_info(w: NativeWindow, active: bool, title: Option<Seq<char>>) -> (
    u32,
    Seq<char>,
    bool,
    u32,
) {
    (
        w.index,
        match title {
            Some(t) => t,
            None => w.name@,
        },
        active,
        w.panes@.len() as u32,
    )
}

pub open spec fn window_view(w: Window) -> (u32, Seq<char>, bool, u32) {
    (w.index, w.name@, w.active, w.panes)
}

pub open spec fn pane_view(p: Pane) -> (u32, Seq<char>, bool) {
    (p.index, p.title@, p.active)
}

pub open spec fn opt_title(t: Option<String>) -> Option<Seq<char>> {
    match t {
        Some(s) => Some(s@),
        None => None,
    }
}

/// The largest window number (0 for none).
pub open spec fn max_index(ws: Seq<NativeWindow>) -> nat
    decreases ws.len(),
{
    if ws.len() == 0 {
        0
    } else {
        let m = max_index(ws.drop_last());
        if ws.last().index > m {
            ws.last().index as nat
        } else {
            m
        }
    }
}

/// The windows whose terminals are still running.
pub open spec fn unfinished(ws: Seq<NativeWindow>, finished: Seq<bool>) -> Seq<NativeWindow>
    decreases ws.len(),
{
    if ws.len() == 0 {
        Seq::empty()
    } else if finished[ws.len() - 1] {
        unfinished(ws.drop_last(), finished)
    } else {
        unfinished(ws.drop_last(), finished).push(ws.last())
    }
}

pub open spec fn min_nat(a: nat, b: nat) -> nat {
    if a <= b {
        a
    } else {
        b
    }
}

impl NativeMux {
    /// A window list holding window 1 (`shell`) with one pane showing
    /// terminal 1.
    pub fn new() -> (m: Self)
        ensures
            mux_wf(m@),
            m@.windows.len() == 1,
            m@.active == 0,
            m@.windows[0].index == 1,
            m@.windows[0].name@ == default_window_name(1),
            m@.windows[0].panes@.len() == 1,
            m@.windows[0].panes@[0].terminal == 1,
            m@.next_terminal_id == 2,
    {
        let mut mux = NativeMux { windows: Vec::new(), active_window: 0, next_terminal_id: 1 };
        let w = mux.prepare_window(1);
        mux.windows.push(w);
        mux
    }

    /// A fresh window numbered `index` with one pane showing a new terminal
    /// id; the window list itself is unchanged.
    pub fn prepare_window(&mut self, index: u32) -> (w: NativeWindow)
        requires
            old(self)@.next_terminal_id < u64::MAX,
        ensures
            w.index == index,
            w.name@ == default_window_name(index),
            w.active_pane == 0,
            w.panes@.len() == 1,
            w.panes@[0].index == 1,
            w.panes@[0].title@ == default_pane_title(index),
            w.panes@[0].terminal == old(self)@.next_terminal_id,
            final(self)@.next_terminal_id == old(self)@.next_terminal_id + 1,
            final(self)@.windows == old(self)@.windows,
            final(self)@.active == old(self)@.active,
            window_wf(w, final(self)@.next_terminal_id),
    {
        let id = self.next_terminal_id;
        self.next_terminal_id = self.next_terminal_id + 1;
        let mut title = String::new();
        crate::text::push_char(&mut title, 's');
        crate::text::push_char(&mut title, 'h');
        crate::text::push_char(&mut title, 'e');
        crate::text::push_char(&mut title, 'l');
        crate::text::push_char(&mut title, 'l');
        crate::text::push_char(&mut title, '-');
        push_decimal(&mut title, index as u128);
        let name = if index == 1 {
            let mut n = String::new();
            crate::text::push_char(&mut n, 's');
            crate::text::push_char(&mut n, 'h');
            crate::text::push_char(&mut n, 'e');
            crate::text::push_char(&mut n, 'l');
            crate::text::push_char(&mut n, 'l');
            assert(n@ =~= default_window_name(index));
            n
        } else {
            let n = title.clone();
            assert(n@ =~= default_window_name(index));
            n
        };
        assert(title@ =~= default_pane_title(index));
        let mut panes: Vec<NativePane> = Vec::new();
        panes.push(NativePane { index: 1, title, terminal: id });
        NativeWindow { index, name, panes, active_pane: 0 }
    }

    /// Whether `w` may join the window list: it has a pane, its active pane
    /// exists, and every terminal it shows was handed out by this list.
    pub fn window_fits(&self, w: &NativeWindow) -> (b: bool)
        ensures
            b == window_wf(*w, self@.next_terminal_id),
    {
        if w.panes.len() == 0 || w.active_pane >= w.panes.len() {
            return false;
        }
        let mut i: usize = 0;
        while i < w.panes.len()
            invariant
                i <= w.panes@.len(),
                forall|p: int| 0 <= p < i ==> (#[trigger] w.panes@[p]).terminal < self@.next_terminal_id,
            decreases w.panes@.len() - i,
        {
            if w.panes[i].terminal >= self.next_terminal_id {
                return false;
            }
            i = i + 1;
        }
        true
    }

    /// Whether another window number and two more terminal ids still fit
    /// their integer types, which `daemon::handle_request` needs.
    pub fn within_limits(&self) -> (b: bool)
        ensures
            b == (max_index(self@.windows) < u32::MAX && self@.next_terminal_id < u64::MAX - 1),
    {
        let mut m: u32 = 0;
        let mut i: usize = 0;
        while i < self.windows.len()
            invariant
                i <= self.windows.len(),
                m == max_index(self@.windows.take(i as int)),
            decreases self.windows.len() - i,
        {
            assert(self@.windows.take(i + 1).drop_last() =~= self@.windows.take(i as int));
            if self.windows[i].index > m {
                m = self.windows[i].index;
            }
            i = i + 1;
        }
        assert(self@.windows.take(self.windows.len() as int) =~= self@.windows);
        m < u32::MAX && self.next_terminal_id < u64::MAX - 1
    }

    /// The number the next new window gets: one more than the largest.
    pub fn next_window_index(&self) -> (r: u32)
        requires
            max_index(self@.windows) < u32::MAX,
        ensures
            r == max_index(self@.windows) + 1,
    {
        let mut m: u32 = 0;
        let mut i: usize = 0;
        while i < self.windows.len()
            invariant
                i <= self.windows.len(),
                m == max_index(self@.windows.take(i as int)),
            decreases self.windows.len() - i,
        {
            assert(self@.windows.take(i + 1).drop_last() =~= self@.windows.take(i as int));
            if self.windows[i].index > m {
                m = self.windows[i].index;
            }
            i = i + 1;
        }
        assert(self@.windows.take(self.windows.len() as int) =~= self@.windows);
        m + 1
    }

    /// Appends a window and makes it active.
    pub fn push_window(&mut self, window: NativeWindow)
        requires
            mux_wf(old(self)@),
            window_wf(window, old(self)@.next_terminal_id),
        ensures
            mux_wf(final(self)@),
            final(self)@.windows == old(self)@.windows.push(window),
            final(self)@.active == old(self)@.windows.len(),
            final(self)@.next_terminal_id == old(self)@.next_terminal_id,
    {
        self.windows.push(window);
        self.active_window = self.windows.len() - 1;
        assert forall|i: int| 0 <= i < self@.windows.len() implies window_wf(
            #[trigger] self@.windows[i],
            self@.next_terminal_id,
        ) by {
            if i < old(self)@.windows.len() {
                assert(self@.windows[i] == old(self)@.windows[i]);
            }
        }
    }

    /// Creates window `max + 1` with a new terminal id and makes it active;
    /// returns its number.
    pub fn new_window(&mut self) -> (r: u32)
        requires
            mux_wf(old(self)@),
            max_index(old(self)@.windows) < u32::MAX,
            old(self)@.next_terminal_id < u64::MAX,
        ensures
            mux_wf(final(self)@),
            r == max_index(old(self)@.windows) + 1,
            final(self)@.windows.len() == old(self)@.windows.len() + 1,
            final(self)@.windows.drop_last() == old(self)@.windows,
            final(self)@.windows.last().index == r,
            final(self)@.windows.last().panes@.len() == 1,
            final(self)@.windows.last().panes@[0].terminal == old(self)@.next_terminal_id,
            final(self)@.active == old(self)@.windows.len(),
    {
        let index = self.next_window_index();
        let w = self.prepare_window(index);
        proof {
            assert forall|i: int| 0 <= i < self@.windows.len() implies window_wf(
                #[trigger] self@.windows[i],
                self@.next_terminal_id,
            ) by {
                assert(window_wf(self@.windows[i], old(self)@.next_terminal_id));
            }
        }
        self.push_window(w);
        assert(self@.windows.drop_last() =~= old(self)@.windows);
        index
    }

    /// Makes window `row` active; refused when there is no such window.
    pub fn select_window_by_row(&mut self, row: usize) -> (r: Result<(), MuxError>)
        requires
            mux_wf(old(self)@),
        ensures
            mux_wf(final(self)@),
            final(self)@.windows == old(self)@.windows,
            final(self)@.next_terminal_id == old(self)@.next_terminal_id,
            row < old(self)@.windows.len() ==> r is Ok && final(self)@.active == row,
            row >= old(self)@.windows.len() ==> r == Err::<(), MuxError>(MuxError::WindowMissing(row))
                && final(self)@.active == old(self)@.active,
    {
        if row >= self.windows.len() {
            return Err(MuxError::WindowMissing(row));
        }
        self.active_window = row;
        Ok(())
    }

    /// Makes pane `row` of the active window active; refused when there is
    /// no such pane.
    pub fn select_pane_by_row(&mut self, row: usize) -> (r: Result<(), MuxError>)
        requires
            mux_wf(old(self)@),
        ensures
            mux_wf(final(self)@),
            final(self)@.active == old(self)@.active,
            final(self)@.next_terminal_id == old(self)@.next_terminal_id,
            final(self)@.windows.len() == old(self)@.windows.len(),
            ({
                let a = old(self)@.active as int;
                let w = old(self)@.windows[a];
                if row < w.panes@.len() {
                    r is Ok && final(self)@.windows == old(self)@.windows.update(
                        a,
                        NativeWindow { active_pane: row, ..w },
                    )
                } else {
                    r == Err::<(), MuxError>(MuxError::PaneMissing(row)) && final(self)@.windows
                        == old(self)@.windows
                }
            }),
    {
        if self.active_window >= self.windows.len() {
            return Err(MuxError::NoActiveWindow);
        }
        let a = self.active_window;
        if row >= self.windows[a].panes.len() {
            return Err(MuxError::PaneMissing(row));
        }
        let mut w = self.windows.remove(a);
        let ghost old_w = w;
        w.active_pane = row;
        self.windows.insert(a, w);
        assert(self@.windows =~= old(self)@.windows.update(a as int, NativeWindow { active_pane: row, ..old_w }));
        assert forall|i: int| 0 <= i < self@.windows.len() implies window_wf(
            #[trigger] self@.windows[i],
            self@.next_terminal_id,
        ) by {
            assert(window_wf(old(self)@.windows[i], old(self)@.next_terminal_id));
        }
        Ok(())
    }

    /// Whether closing window `row` needs a fresh replacement window (it is
    /// the only one).
    pub fn kill_needs_replacement(&self, row: usize) -> (b: bool)
        ensures
            b == (row < self@.windows.len() && self@.windows.len() == 1),
    {
        row < self.windows.len() && self.windows.len() == 1
    }

    /// Closes window `row` and returns its number; closing the last window
    /// puts `replacement` in its place. The active row stays, clamped to the
    /// remaining windows. Refused when there is no such window.
    pub fn kill_window_by_row(&mut self, row: usize, replacement: Option<NativeWindow>) -> (r: Result<
        u32,
        MuxError,
    >)
        requires
            mux_wf(old(self)@),
            replacement matches Some(w) ==> window_wf(w, old(self)@.next_terminal_id),
            row < old(self)@.windows.len() && old(self)@.windows.len() == 1 ==> replacement is Some,
        ensures
            mux_wf(final(self)@),
            final(self)@.next_terminal_id == old(self)@.next_terminal_id,
            row >= old(self)@.windows.len() ==> r == Err::<u32, MuxError>(MuxError::WindowMissing(row))
                && final(self)@ == old(self)@,
            row < old(self)@.windows.len() ==> r == Ok::<u32, MuxError>(
                old(self)@.windows[row as int].index,
            ),
            row < old(self)@.windows.len() && old(self)@.windows.len() == 1 ==> final(self)@.windows
                == seq![replacement->0] && final(self)@.active == 0,
            row < old(self)@.windows.len() && old(self)@.windows.len() > 1 ==> final(self)@.windows
                == old(self)@.windows.remove(row as int) && final(self)@.active == min_nat(
                old(self)@.active,
                (old(self)@.windows.len() - 2) as nat,
            ),
    {
        if row >= self.windows.len() {
            return Err(MuxError::WindowMissing(row));
        }
        let needs_replacement = self.windows.len() == 1;
        let removed = self.windows.remove(row).index;
        if needs_replacement {
            match replacement {
                Some(w) => {
                    self.windows.push(w);
                },
                None => {},
            }
            self.active_window = 0;
            assert(self@.windows =~= seq![replacement->0]);
        } else {
            let last = self.windows.len() - 1;
            if self.active_window > last {
                self.active_window = last;
            }
            assert forall|i: int| 0 <= i < self@.windows.len() implies window_wf(
                #[trigger] self@.windows[i],
                self@.next_terminal_id,
            ) by {
                if i < row {
                    assert(self@.windows[i] == old(self)@.windows[i]);
                } else {
                    assert(self@.windows[i] == old(self)@.windows[i + 1]);
                }
            }
        }
        Ok(removed)
    }

    /// Which windows count as finished, given for each pane of each window
    /// (`pane_finished[w][p]`) whether its program has exited: a window is
    /// finished when all its panes are.
    pub fn window_finished_flags(&self, pane_finished: &Vec<Vec<bool>>) -> (r: Vec<bool>)
        requires
            pane_finished@.len() == self@.windows.len(),
            forall|w: int|
                0 <= w < pane_finished@.len() ==> (#[trigger] pane_finished@[w])@.len()
                    == self@.windows[w].panes@.len(),
        ensures
            r@.len() == self@.windows.len(),
            forall|w: int|
                0 <= w < r@.len() ==> #[trigger] r@[w] == (forall|p: int|
                    0 <= p < pane_finished@[w]@.len() ==> pane_finished@[w]@[p]),
    {
        let mut r: Vec<bool> = Vec::new();
        let mut w: usize = 0;
        while w < pane_finished.len()
            invariant
                w <= pane_finished@.len(),
                r@.len() == w,
                forall|v: int|
                    0 <= v < w ==> #[trigger] r@[v] == (forall|p: int|
                        0 <= p < pane_finished@[v]@.len() ==> pane_finished@[v]@[p]),
            decreases pane_finished@.len() - w,
        {
            let panes = &pane_finished[w];
            let mut all = true;
            let mut p: usize = 0;
            while p < panes.len()
                invariant
                    p <= panes@.len(),
                    all == (forall|q: int| 0 <= q < p ==> panes@[q]),
                decreases panes@.len() - p,
            {
                all = all && panes[p];
                p = p + 1;
            }
            r.push(all);
            w = w + 1;
        }
        r
    }

    /// Whether reaping needs a fresh replacement window: every window's
    /// terminals have finished.
    pub fn reap_needs_replacement(&self, finished: &Vec<bool>) -> (b: bool)
        requires
            finished.len() == self@.windows.len(),
        ensures
            b == (forall|i: int| 0 <= i < finished.len() ==> finished@[i]),
    {
        let mut i: usize = 0;
        while i < finished.len()
            invariant
                i <= finished.len(),
                forall|k: int| 0 <= k < i ==> finished@[k],
            decreases finished.len() - i,
        {
            if !finished[i] {
                return false;
            }
            i = i + 1;
        }
        true
    }

    /// Closes every window whose terminals have all finished
    /// (`finished[i]` for window `i`); when all have, `replacement` is the
    /// only window left. The active row stays, clamped to what remains.
    /// Returns whether anything was closed.
    pub fn reap_finished_windows(&mut self, finished: &Vec<bool>, replacement: Option<NativeWindow>) -> (changed: bool)
        requires
            mux_wf(old(self)@),
            finished.len() == old(self)@.windows.len(),
            replacement matches Some(w) ==> window_wf(w, old(self)@.next_terminal_id),
            (forall|i: int| 0 <= i < finished.len() ==> finished@[i]) ==> replacement is Some,
        ensures
            mux_wf(final(self)@),
            final(self)@.next_terminal_id == old(self)@.next_terminal_id,
            changed == (exists|i: int| 0 <= i < finished.len() && finished@[i]),
            (forall|i: int| 0 <= i < finished.len() ==> finished@[i]) ==> final(self)@.windows
                == seq![replacement->0] && final(self)@.active == 0,
            !(forall|i: int| 0 <= i < finished.len() ==> finished@[i]) ==> final(self)@.windows
                == unfinished(old(self)@.windows, finished@) && final(self)@.active == min_nat(
                old(self)@.active,
                (final(self)@.windows.len() - 1) as nat,
            ),
    {
        let all = self.reap_needs_replacement(finished);
        let mut ws: Vec<NativeWindow> = Vec::new();
        std::mem::swap(&mut ws, &mut self.windows);
        let ghost orig = ws@;
        let mut any = false;
        let mut i: usize = 0;
        let mut j: usize = 0;
        let n = finished.len();
        while i < n
            invariant
                i <= n == finished.len() == orig.len(),
                orig == old(self)@.windows,
                mux_wf(old(self)@),
                j <= i,
                ws@ == unfinished(orig.take(i as int), finished@) + orig.skip(i as int),
                unfinished(orig.take(i as int), finished@).len() == j,
                any == (exists|k: int| 0 <= k < i && finished@[k]),
            decreases n - i,
        {
            assert(orig.take(i + 1).drop_last() =~= orig.take(i as int));
            let ghost prefix = unfinished(orig.take(i as int), finished@);
            assert(ws@[j as int] == orig[i as int]);
            if finished[i] {
                any = true;
                ws.remove(j);
                assert(ws@ =~= prefix + orig.skip(i + 1));
            } else {
                j = j + 1;
                assert(ws@ =~= prefix.push(orig[i as int]) + orig.skip(i + 1));
            }
            i = i + 1;
        }
        assert(orig.take(n as int) =~= orig);
        assert(ws@ =~= unfinished(orig, finished@));
        proof {
            lemma_unfinished_wf(orig, finished@, old(self)@.next_terminal_id);
        }
        if all {
            let mut ws: Vec<NativeWindow> = Vec::new();
            match replacement {
                Some(w) => ws.push(w),
                None => {},
            }
            self.windows = ws;
            self.active_window = 0;
            assert(self@.windows =~= seq![replacement->0]);
            assert(finished@[0]);
        } else {
            let ghost witness = choose|k: int| 0 <= k < finished.len() && !finished@[k];
            proof {
                lemma_unfinished_keeps(old(self)@.windows, finished@, witness);
            }
            self.windows = ws;
            let last = self.windows.len() - 1;
            if self.active_window > last {
                self.active_window = last;
            }
        }
        any
    }

    /// The terminal id of the active pane of the active window.
    pub fn active_terminal(&self) -> (r: Option<u64>)
        requires
            mux_wf(self@),
        ensures
            r == Some(self@.windows[self@.active as int].panes@[self@.windows[self@.active as int].active_pane as int].terminal),
    {
        let w = &self.windows[self.active_window];
        assert(window_wf(self@.windows[self@.active as int], self@.next_terminal_id));
        Some(w.panes[w.active_pane].terminal)
    }

    /// For each window, the terminal id of its active pane.
    pub fn window_terminal_ids(&self) -> (r: Vec<u64>)
        requires
            mux_wf(self@),
        ensures
            r.len() == self@.windows.len(),
            forall|i: int|
                0 <= i < r.len() ==> #[trigger] r@[i] == self@.windows[i].panes@[self@.windows[i].active_pane as int].terminal,
    {
        let mut r: Vec<u64> = Vec::new();
        let mut i: usize = 0;
        while i < self.windows.len()
            invariant
                mux_wf(self@),
                i <= self.windows.len(),
                r.len() == i,
                forall|k: int|
                    0 <= k < i ==> #[trigger] r@[k] == self@.windows[k].panes@[self@.windows[k].active_pane as int].terminal,
            decreases self.windows.len() - i,
        {
            let w = &self.windows[i];
            assert(window_wf(self@.windows[i as int], self@.next_terminal_id));
            r.push(w.panes[w.active_pane].terminal);
            i = i + 1;
        }
        r
    }

    /// The terminal ids of the active window's panes, in order.
    pub fn active_pane_terminals(&self) -> (r: Vec<u64>)
        requires
            mux_wf(self@),
        ensures
            r.len() == self@.windows[self@.active as int].panes@.len(),
            forall|i: int|
                0 <= i < r.len() ==> #[trigger] r@[i] == self@.windows[self@.active as int].panes@[i].terminal,
    {
        let w = &self.windows[self.active_window];
        let mut r: Vec<u64> = Vec::new();
        let mut i: usize = 0;
        while i < w.panes.len()
            invariant
                i <= w.panes.len(),
                r.len() == i,
                forall|k: int| 0 <= k < i ==> #[trigger] r@[k] == w.panes@[k].terminal,
            decreases w.panes.len() - i,
        {
            r.push(w.panes[i].terminal);
            i = i + 1;
        }
        r
    }

    /// Every terminal id in use, window by window.
    pub fn terminal_ids(&self) -> (r: Vec<u64>)
        ensures
            forall|i: int, p: int|
                0 <= i < self@.windows.len() && 0 <= p < self@.windows[i].panes@.len() ==> r@.contains(
                    #[trigger] self@.windows[i].panes@[p].terminal,
                ),
    {
        let mut r: Vec<u64> = Vec::new();
        let mut i: usize = 0;
        while i < self.windows.len()
            invariant
                i <= self.windows.len(),
                forall|k: int, p: int|
                    0 <= k < i && 0 <= p < self@.windows[k].panes@.len() ==> r@.contains(
                        #[trigger] self@.windows[k].panes@[p].terminal,
                    ),
            decreases self.windows.len() - i,
        {
            let w = &self.windows[i];
            let mut j: usize = 0;
            let ghost before = r@;
            while j < w.panes.len()
                invariant
                    j <= w.panes.len(),
                    w == self@.windows[i as int],
                    forall|x: u64| before.contains(x) ==> r@.contains(x),
                    forall|p: int| 0 <= p < j ==> r@.contains(#[trigger] w.panes@[p].terminal),
                decreases w.panes.len() - j,
            {
                let ghost prev = r@;
                r.push(w.panes[j].terminal);
                assert(r@.last() == w.panes@[j as int].terminal);
                assert(forall|x: u64| prev.contains(x) ==> r@.contains(x)) by {
                    assert forall|x: u64| prev.contains(x) implies r@.contains(x) by {
                        let k = choose|k: int| 0 <= k < prev.len() && prev[k] == x;
                        assert(r@[k] == x);
                    }
                }
                assert(r@[r@.len() - 1] == w.panes@[j as int].terminal);
                j = j + 1;
            }
            i = i + 1;
        }
        r
    }

    /// The pane layout axis of the active window (panes are laid out in
    /// columns).
    pub fn active_pane_axis(&self) -> (a: PaneAxis)
        ensures
            a == PaneAxis::Columns,
    {
        PaneAxis::Columns
    }

    /// The separators between panes of the active window: none, as every
    /// window shows a single full-size pane.
    pub fn active_pane_separators(&self, width: u16, height: u16) -> (r: Vec<PaneSeparator>)
        ensures
            r@.len() == 0,
    {
        Vec::new()
    }

    /// The window list as the UI shows it; `titles[i]` is the title reported
    /// by the terminal of window `i`'s active pane.
    pub fn window_infos(&self, titles: &Vec<Option<String>>) -> (r: Vec<Window>)
        requires
            titles.len() == self@.windows.len(),
        ensures
            r.len() == self@.windows.len(),
            forall|i: int|
                0 <= i < r.len() ==> window_view(#[trigger] r@[i]) == spec_window_info(
                    self@.windows[i],
                    i == self@.active,
                    opt_title(titles@[i]),
                ),
    {
        let mut r: Vec<Window> = Vec::new();
        let mut i: usize = 0;
        while i < self.windows.len()
            invariant
                i <= self.windows.len() == titles.len(),
                r.len() == i,
                forall|k: int|
                    0 <= k < i ==> window_view(#[trigger] r@[k]) == spec_window_info(
                        self@.windows[k],
                        k == self@.active,
                        opt_title(titles@[k]),
                    ),
            decreases self.windows.len() - i,
        {
            let w = &self.windows[i];
            let name = match &titles[i] {
                Some(t) => t.clone(),
                None => w.name.clone(),
            };
            r.push(
                Window {
                    index: w.index,
                    name,
                    active: i == self.active_window,
                    panes: w.panes.len() as u32,
                },
            );
            i = i + 1;
        }
        r
    }

    /// The panes of the active window as the UI shows them; `titles[i]` is
    /// the title reported by pane `i`'s terminal.
    pub fn pane_infos(&self, titles: &Vec<Option<String>>) -> (r: Vec<Pane>)
        requires
            mux_wf(self@),
            titles.len() == self@.windows[self@.active as int].panes@.len(),
        ensures
            r.len() == titles.len(),
            forall|i: int|
                0 <= i < r.len() ==> pane_view(#[trigger] r@[i]) == ({
                    let w = self@.windows[self@.active as int];
                    (
                        w.panes@[i].index,
                        match opt_title(titles@[i]) {
                            Some(t) => t,
                            None => w.panes@[i].title@,
                        },
                        i == w.active_pane,
                    )
                }),
    {
        let w = &self.windows[self.active_window];
        let mut r: Vec<Pane> = Vec::new();
        let mut i: usize = 0;
        while i < w.panes.len()
            invariant
                i <= w.panes.len() == titles.len(),
                w == self@.windows[self@.active as int],
                r.len() == i,
                forall|k: int|
                    0 <= k < i ==> pane_view(#[trigger] r@[k]) == (
                        w.panes@[k].index,
                        match opt_title(titles@[k]) {
                            Some(t) => t,
                            None => w.panes@[k].title@,
                        },
                        k == w.active_pane,
                    ),
            decreases w.panes.len() - i,
        {
            let title = match &titles[i] {
                Some(t) => t.clone(),
                None => w.panes[i].title.clone(),
            };
            r.push(Pane { index: w.panes[i].index, title, active: i == w.active_pane });
            i = i + 1;
        }
        r
    }
}

/// A pane of the active window with its place in a `width` x `height`
/// terminal area and the id of the terminal it shows.
#[derive(Debug, Clone, PartialEq, Eq)]
pub struct PaneRef {
    pub index: u32,
    pub title: String,
    pub active: bool,
    pub rect: PaneRect,
    pub terminal: u64,
}

impl NativeMux {
    /// The panes of the active window, each given the whole terminal area
    /// (windows hold one pane each); `titles[i]` is the title reported by
    /// pane `i`'s terminal.
    pub fn active_pane_refs(&self, titles: &Vec<Option<String>>, width: u16, height: u16) -> (r: Vec<PaneRef>)
        requires
            mux_wf(self@),
            titles.len() == self@.windows[self@.active as int].panes@.len(),
        ensures
            r.len() == titles.len(),
            forall|i: int|
                0 <= i < r.len() ==> ({
                    let w = self@.windows[self@.active as int];
                    &&& (#[trigger] r@[i]).index == w.panes@[i].index
                    &&& r@[i].title@ == match opt_title(titles@[i]) {
                        Some(t) => t,
                        None => w.panes@[i].title@,
                    }
                    &&& r@[i].active == (i == w.active_pane)
                    &&& r@[i].rect == PaneRect { x: 0, y: 0, width, height }
                    &&& r@[i].terminal == w.panes@[i].terminal
                }),
    {
        let w = &self.windows[self.active_window];
        let mut r: Vec<PaneRef> = Vec::new();
        let mut i: usize = 0;
        while i < w.panes.len()
            invariant
                i <= w.panes.len() == titles.len(),
                w == self@.windows[self@.active as int],
                r.len() == i,
                forall|k: int|
                    0 <= k < i ==> {
                        &&& (#[trigger] r@[k]).index == w.panes@[k].index
                        &&& r@[k].title@ == match opt_title(titles@[k]) {
                            Some(t) => t,
                            None => w.panes@[k].title@,
                        }
                        &&& r@[k].active == (k == w.active_pane)
                        &&& r@[k].rect == PaneRect { x: 0, y: 0, width, height }
                        &&& r@[k].terminal == w.panes@[k].terminal
                    },
            decreases w.panes.len() - i,
        {
            let title = match &titles[i] {
                Some(t) => t.clone(),
                None => w.panes[i].title.clone(),
            };
            r.push(
                PaneRef {
                    index: w.panes[i].index,
                    title,
                    active: i == w.active_pane,
                    rect: PaneRect::new(0, 0, width, height),
                    terminal: w.panes[i].terminal,
                },
            );
            i = i + 1;
        }
        r
    }
}

impl NativeMux {
    /// The terminal ids of window `row`'s panes, in order.
    pub fn window_pane_terminals(&self, row: usize) -> (r: Vec<u64>)
        requires
            row < self@.windows.len(),
        ensures
            r.len() == self@.windows[row as int].panes@.len(),
            forall|i: int| 0 <= i < r.len() ==> #[trigger] r@[i] == self@.windows[row as int].panes@[i].terminal,
    {
        let w = &self.windows[row];
        let mut r: Vec<u64> = Vec::new();
        let mut i: usize = 0;
        while i < w.panes.len()
            invariant
                i <= w.panes.len(),
                r.len() == i,
                forall|k: int| 0 <= k < i ==> #[trigger] r@[k] == w.panes@[k].terminal,
            decreases w.panes.len() - i,
        {
            r.push(w.panes[i].terminal);
            i = i + 1;
        }
        r
    }

    /// How many windows there are.
    pub fn window_count(&self) -> (n: usize)
        ensures
            n == self@.windows.len(),
    {
        self.windows.len()
    }
}

proof fn lemma_unfinished_wf(ws: Seq<NativeWindow>, finished: Seq<bool>, next: nat)
    requires
        finished.len() >= ws.len(),
        forall|i: int| 0 <= i < ws.len() ==> window_wf(#[trigger] ws[i], next),
    ensures
        forall|i: int| 0 <= i < unfinished(ws, finished).len() ==> window_wf(#[trigger] unfinished(ws, finished)[i], next),
    decreases ws.len(),
{
    if ws.len() > 0 {
        lemma_unfinished_wf(ws.drop_last(), finished, next);
        let u = unfinished(ws.drop_last(), finished);
        if !finished[ws.len() - 1] {
            assert forall|i: int| 0 <= i < u.push(ws.last()).len() implies window_wf(
                #[trigger] u.push(ws.last())[i],
                next,
            ) by {
                if i < u.len() {
                    assert(u.push(ws.last())[i] == u[i]);
                }
            }
        }
    }
}

proof fn lemma_unfinished_keeps(ws: Seq<NativeWindow>, finished: Seq<bool>, k: int)
    requires
        0 <= k < ws.len(),
        finished.len() >= ws.len(),
        !finished[k],
    ensures
        unfinished(ws, finished).len() >= 1,
    decreases ws.len(),
{
    if k < ws.len() - 1 {
        lemma_unfinished_keeps(ws.drop_last(), finished, k);
    }
}

} // verus!
