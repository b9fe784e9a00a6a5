//! The decisions of the interactive client: screen geometry and hit
//! testing, the keyboard shortcuts, the selection, context-menu and paste
//! state, and fitting text into the sidebar. Drawing and the event loop are
//! left to the binary, which asks these functions what to do.

use vstd::prelude::*;

use crate::native_mux::{PaneAxis, PaneRect, Window};
use crate::text::{append_chars, append_repeat, chars_of, dec_digits, push_decimal_vec, spaces, string_of};

verus! {

/// A screen rectangle.
#[derive(Debug, Clone, Copy, PartialEq, Eq, Structural)]
pub struct Rect {
    pub x: u16,
    pub y: u16,
    pub width: u16,
    pub height: u16,
}

pub open spec fn sat_add(a: u16, b: u16) -> u16 {
    if a + b > u16::MAX {
        u16::MAX
    } else {
        (a + b) as u16
    }
}

pub open spec fn sat_sub(a: u16, b: u16) -> u16 {
    if a < b {
        0
    } else {
        (a - b) as u16
    }
}

impl Rect {
    pub fn new(x: u16, y: u16, width: u16, height: u16) -> (r: Self)
        ensures
            r == (Rect { x, y, width, height }),
    {
        Rect { x, y, width, height }
    }

    /// The empty rectangle at the origin.
    pub fn empty() -> (r: Self)
        ensures
            r == (Rect { x: 0, y: 0, width: 0, height: 0 }),
    {
        Rect { x: 0, y: 0, width: 0, height: 0 }
    }

    /// One past the last column (saturating).
    pub fn right(self) -> (r: u16)
        ensures
            r == sat_add(self.x, self.width),
    {
        if self.width > u16::MAX - self.x {
            u16::MAX
        } else {
            self.x + self.width
        }
    }

    /// One past the last row (saturating).
    pub fn bottom(self) -> (r: u16)
        ensures
            r == sat_add(self.y, self.height),
    {
        if self.height > u16::MAX - self.y {
            u16::MAX
        } else {
            self.y + self.height
        }
    }
}

/// Whether the cell `(x, y)` lies inside `r`.
pub open spec fn spec_contains(r: Rect, x: u16, y: u16) -> bool {
    x >= r.x && x < sat_add(r.x, r.width) && y >= r.y && y < sat_add(r.y, r.height)
}

/// Whether the cell `(x, y)` lies inside `rect`.
pub fn contains(rect: Rect, x: u16, y: u16) -> (b: bool)
    ensures
        b == spec_contains(rect, x, y),
{
    x >= rect.x && x < rect.right() && y >= rect.y && y < rect.bottom()
}

/// An entry of the right-click menu.
#[derive(Debug, Clone, Copy, PartialEq, Eq, Structural)]
pub enum ContextMenuAction {
    Copy,
    Paste,
    Cancel,
}

/// A clickable element of the screen.
#[derive(Debug, Clone, Copy, PartialEq, Eq, Structural)]
pub enum Hotspot {
    DetachButton,
    StatusPanel,
    MainPane,
    Window(usize),
    WindowClose(usize),
    NewWindow,
    ContextMenu(ContextMenuAction),
}

/// Where the last frame drew each clickable element.
#[derive(Debug, Clone, Copy)]
pub struct Regions {
    pub main_pane: Rect,
    pub terminal_body: Rect,
    pub detach_button: Rect,
    pub status_panel: Rect,
    pub new_window: Rect,
    pub windows: [Rect; 8],
    pub window_close: [Rect; 8],
    pub window_count: usize,
    pub terminal_panes: [Rect; 8],
    pub terminal_pane_count: usize,
    pub context_menu: Rect,
    pub context_menu_items: [Rect; 3],
    pub context_menu_count: usize,
}

/// The counts stay within the fixed slots.
pub open spec fn regions_wf(r: Regions) -> bool {
    r.window_count <= 8 && r.terminal_pane_count <= 8 && r.context_menu_count <= 3
}

impl Regions {
    /// Nothing drawn yet.
    pub fn new() -> (r: Self)
        ensures
            regions_wf(r),
            r.window_count == 0,
            r.terminal_pane_count == 0,
            r.context_menu_count == 0,
            r.main_pane == Rect::spec_empty(),
            r.terminal_body == Rect::spec_empty(),
            r.detach_button == Rect::spec_empty(),
            r.status_panel == Rect::spec_empty(),
            r.new_window == Rect::spec_empty(),
            r.context_menu == Rect::spec_empty(),
    {
        let e = Rect::empty();
        Regions {
            main_pane: e,
            terminal_body: e,
            detach_button: e,
            status_panel: e,
            new_window: e,
            windows: [e, e, e, e, e, e, e, e],
            window_close: [e, e, e, e, e, e, e, e],
            window_count: 0,
            terminal_panes: [e, e, e, e, e, e, e, e],
            terminal_pane_count: 0,
            context_menu: e,
            context_menu_items: [e, e, e],
            context_menu_count: 0,
        }
    }
}

impl Rect {
    pub open spec fn spec_empty() -> Rect {
        Rect { x: 0, y: 0, width: 0, height: 0 }
    }
}

/// The menu entries in display order.
pub open spec fn menu_action(i: int) -> ContextMenuAction {
    if i == 0 {
        ContextMenuAction::Copy
    } else if i == 1 {
        ContextMenuAction::Paste
    } else {
        ContextMenuAction::Cancel
    }
}

pub open spec fn spec_menu_index(a: ContextMenuAction) -> nat {
    match a {
        ContextMenuAction::Copy => 0,
        ContextMenuAction::Paste => 1,
        ContextMenuAction::Cancel => 2,
    }
}

/// The menu entry shown in row `i` (of three).
pub fn context_menu_action(i: usize) -> (a: ContextMenuAction)
    requires
        i < 3,
    ensures
        a == menu_action(i as int),
{
    if i == 0 {
        ContextMenuAction::Copy
    } else if i == 1 {
        ContextMenuAction::Paste
    } else {
        ContextMenuAction::Cancel
    }
}

/// The row of a menu entry.
pub fn context_menu_action_index(action: ContextMenuAction) -> (i: usize)
    ensures
        i == spec_menu_index(action),
        menu_action(i as int) == action,
{
    match action {
        ContextMenuAction::Copy => 0,
        ContextMenuAction::Paste => 1,
        ContextMenuAction::Cancel => 2,
    }
}

/// The first menu row (in display order) under `(x, y)`.
pub open spec fn first_menu_hit(x: u16, y: u16, r: Regions, n: int) -> Option<int>
    decreases n,
{
    if n <= 0 {
        None
    } else {
        match first_menu_hit(x, y, r, n - 1) {
            Some(i) => Some(i),
            None => if spec_contains(r.context_menu_items[n - 1], x, y) {
                Some(n - 1)
            } else {
                None
            },
        }
    }
}

/// The menu entry drawn under `(x, y)`, if any.
pub fn context_menu_action_at(x: u16, y: u16, regions: &Regions) -> (r: Option<ContextMenuAction>)
    requires
        regions_wf(*regions),
    ensures
        r == match first_menu_hit(x, y, *regions, regions.context_menu_count as int) {
            Some(i) => Some(menu_action(i)),
            None => None,
        },
{
    let mut idx: usize = 0;
    while idx < regions.context_menu_count
        invariant
            idx <= regions.context_menu_count <= 3,
            first_menu_hit(x, y, *regions, idx as int) is None,
        decreases regions.context_menu_count - idx,
    {
        if contains(regions.context_menu_items[idx], x, y) {
            proof {
                lemma_first_hit_stable(x, y, *regions, idx as int + 1, regions.context_menu_count as int);
            }
            return Some(context_menu_action(idx));
        }
        idx = idx + 1;
    }
    None
}

proof fn lemma_first_hit_stable(x: u16, y: u16, r: Regions, n: int, m: int)
    requires
        n <= m,
        first_menu_hit(x, y, r, n) is Some,
    ensures
        first_menu_hit(x, y, r, m) == first_menu_hit(x, y, r, n),
    decreases m - n,
{
    if n < m {
        lemma_first_hit_stable(x, y, r, n, m - 1);
    }
}

/// The first window row (in display order) whose close button or row lies
/// under `(x, y)`; the close button wins within a row.
pub open spec fn first_window_hit(x: u16, y: u16, r: Regions, n: int) -> Option<Hotspot>
    decreases n,
{
    if n <= 0 {
        None
    } else {
        match first_window_hit(x, y, r, n - 1) {
            Some(h) => Some(h),
            None => if spec_contains(r.window_close[n - 1], x, y) {
                Some(Hotspot::WindowClose((n - 1) as usize))
            } else if spec_contains(r.windows[n - 1], x, y) {
                Some(Hotspot::Window((n - 1) as usize))
            } else {
                None
            },
        }
    }
}

/// What lies under `(x, y)`: a context-menu entry first, then the main
/// pane, the Detach button, the status panel, a window close button or row,
/// and the `+ new` row.
pub open spec fn spec_hit_test(x: u16, y: u16, r: Regions) -> Option<Hotspot> {
    match first_menu_hit(x, y, r, r.context_menu_count as int) {
        Some(i) => Some(Hotspot::ContextMenu(menu_action(i))),
        None => if spec_contains(r.main_pane, x, y) {
            Some(Hotspot::MainPane)
        } else if spec_contains(r.detach_button, x, y) {
            Some(Hotspot::DetachButton)
        } else if spec_contains(r.status_panel, x, y) {
            Some(Hotspot::StatusPanel)
        } else {
            match first_window_hit(x, y, r, r.window_count as int) {
                Some(h) => Some(h),
                None => if spec_contains(r.new_window, x, y) {
                    Some(Hotspot::NewWindow)
                } else {
                    None
                },
            }
        },
    }
}

proof fn lemma_first_window_hit_stable(x: u16, y: u16, r: Regions, n: int, m: int)
    requires
        n <= m,
        first_window_hit(x, y, r, n) is Some,
    ensures
        first_window_hit(x, y, r, m) == first_window_hit(x, y, r, n),
    decreases m - n,
{
    if n < m {
        lemma_first_window_hit_stable(x, y, r, n, m - 1);
    }
}

/// The element under `(x, y)`.
pub fn hit_test(x: u16, y: u16, regions: &Regions) -> (r: Option<Hotspot>)
    requires
        regions_wf(*regions),
    ensures
        r == spec_hit_test(x, y, *regions),
{
    if let Some(action) = context_menu_action_at(x, y, regions) {
        return Some(Hotspot::ContextMenu(action));
    }
    if contains(regions.main_pane, x, y) {
        return Some(Hotspot::MainPane);
    }
    if contains(regions.detach_button, x, y) {
        return Some(Hotspot::DetachButton);
    }
    if contains(regions.status_panel, x, y) {
        return Some(Hotspot::StatusPanel);
    }
    let mut idx: usize = 0;
    while idx < regions.window_count
        invariant
            regions_wf(*regions),
            idx <= regions.window_count,
            first_window_hit(x, y, *regions, idx as int) is None,
            first_menu_hit(x, y, *regions, regions.context_menu_count as int) is None,
            !spec_contains(regions.main_pane, x, y),
            !spec_contains(regions.detach_button, x, y),
            !spec_contains(regions.status_panel, x, y),
        decreases regions.window_count - idx,
    {
        if contains(regions.window_close[idx], x, y) {
            proof {
                lemma_first_window_hit_stable(x, y, *regions, idx + 1, regions.window_count as int);
            }
            return Some(Hotspot::WindowClose(idx));
        }
        if contains(regions.windows[idx], x, y) {
            proof {
                lemma_first_window_hit_stable(x, y, *regions, idx + 1, regions.window_count as int);
            }
            return Some(Hotspot::Window(idx));
        }
        idx = idx + 1;
    }
    if contains(regions.new_window, x, y) {
        return Some(Hotspot::NewWindow);
    }
    None
}

/// The cell of `body` under `(x, y)` as `(row, col)` inside it.
pub open spec fn spec_cell_at(x: u16, y: u16, body: Rect) -> Option<(u16, u16)> {
    if body.width == 0 || body.height == 0 || !spec_contains(body, x, y) {
        None
    } else {
        Some(((y - body.y) as u16, (x - body.x) as u16))
    }
}

pub fn terminal_cell_at(x: u16, y: u16, body: Rect) -> (r: Option<(u16, u16)>)
    ensures
        r == spec_cell_at(x, y, body),
{
    if body.width == 0 || body.height == 0 || !contains(body, x, y) {
        return None;
    }
    Some((y - body.y, x - body.x))
}

/// The first pane (in order) under `(x, y)` with the cell inside it.
pub open spec fn first_pane_cell(x: u16, y: u16, r: Regions, n: int) -> Option<(usize, u16, u16)>
    decreases n,
{
    if n <= 0 {
        None
    } else {
        match first_pane_cell(x, y, r, n - 1) {
            Some(h) => Some(h),
            None => match spec_cell_at(x, y, r.terminal_panes[n - 1]) {
                Some((row, col)) => Some(((n - 1) as usize, row, col)),
                None => None,
            },
        }
    }
}

/// The terminal pane and cell under `(x, y)`: with no pane layout the whole
/// terminal body is pane 0.
pub open spec fn spec_cell_at_pane(x: u16, y: u16, r: Regions) -> Option<(usize, u16, u16)> {
    if r.terminal_pane_count == 0 {
        match spec_cell_at(x, y, r.terminal_body) {
            Some((row, col)) => Some((0usize, row, col)),
            None => None,
        }
    } else {
        first_pane_cell(x, y, r, r.terminal_pane_count as int)
    }
}

proof fn lemma_first_pane_cell_stable(x: u16, y: u16, r: Regions, n: int, m: int)
    requires
        n <= m,
        first_pane_cell(x, y, r, n) is Some,
    ensures
        first_pane_cell(x, y, r, m) == first_pane_cell(x, y, r, n),
    decreases m - n,
{
    if n < m {
        lemma_first_pane_cell_stable(x, y, r, n, m - 1);
    }
}

pub fn terminal_cell_at_pane(x: u16, y: u16, regions: &Regions) -> (r: Option<(usize, u16, u16)>)
    requires
        regions_wf(*regions),
    ensures
        r == spec_cell_at_pane(x, y, *regions),
{
    if regions.terminal_pane_count == 0 {
        return match terminal_cell_at(x, y, regions.terminal_body) {
            Some((row, col)) => Some((0, row, col)),
            None => None,
        };
    }
    let mut idx: usize = 0;
    while idx < regions.terminal_pane_count
        invariant
            regions_wf(*regions),
            idx <= regions.terminal_pane_count,
            first_pane_cell(x, y, *regions, idx as int) is None,
        decreases regions.terminal_pane_count - idx,
    {
        if let Some((row, col)) = terminal_cell_at(x, y, regions.terminal_panes[idx]) {
            proof {
                lemma_first_pane_cell_stable(x, y, *regions, idx + 1, regions.terminal_pane_count as int);
            }
            return Some((idx, row, col));
        }
        idx = idx + 1;
    }
    None
}

pub open spec fn clamp_u16(v: u16, lo: u16, hi: u16) -> u16 {
    if v < lo {
        lo
    } else if v > hi {
        hi
    } else {
        v
    }
}

/// The rectangle of pane `pane`: with no pane layout the whole terminal
/// body is pane 0.
pub open spec fn pane_area(r: Regions, pane: usize) -> Option<Rect> {
    if r.terminal_pane_count == 0 {
        if pane == 0 {
            Some(r.terminal_body)
        } else {
            None
        }
    } else if pane < r.terminal_pane_count {
        Some(r.terminal_panes[pane as int])
    } else {
        None
    }
}

/// A rectangle that covers at least one cell ends before the last
/// coordinate, so its last column and row are at or after its origin.
pub open spec fn clampable(rect: Rect) -> bool {
    rect.width == 0 || rect.height == 0 || (rect.x < u16::MAX && rect.y < u16::MAX)
}

/// Slots within bounds, and every terminal rectangle clampable: what the
/// mouse handling needs of the last frame's layout.
pub open spec fn regions_ok(r: Regions) -> bool {
    &&& regions_wf(r)
    &&& clampable(r.terminal_body)
    &&& forall|i: int| 0 <= i < r.terminal_pane_count ==> clampable(#[trigger] r.terminal_panes[i])
}

fn is_clampable(rect: Rect) -> (b: bool)
    ensures
        b == clampable(rect),
{
    rect.width == 0 || rect.height == 0 || (rect.x < u16::MAX && rect.y < u16::MAX)
}

/// Checks [`regions_ok`].
pub fn check_regions(r: &Regions) -> (b: bool)
    ensures
        b == regions_ok(*r),
{
    if r.window_count > 8 || r.terminal_pane_count > 8 || r.context_menu_count > 3 {
        return false;
    }
    if !is_clampable(r.terminal_body) {
        return false;
    }
    let mut i: usize = 0;
    while i < r.terminal_pane_count
        invariant
            regions_wf(*r),
            i <= r.terminal_pane_count,
            forall|j: int| 0 <= j < i ==> clampable(#[trigger] r.terminal_panes[j]),
        decreases r.terminal_pane_count - i,
    {
        if !is_clampable(r.terminal_panes[i]) {
            return false;
        }
        i = i + 1;
    }
    true
}

/// The cell of pane `pane` nearest to `(x, y)`: a drag that leaves the pane
/// stays clamped to its edge.
pub open spec fn spec_cell_for_pane(x: u16, y: u16, r: Regions, pane: usize) -> Option<(u16, u16)> {
    match pane_area(r, pane) {
        None => None,
        Some(rect) => if rect.width == 0 || rect.height == 0 {
            None
        } else {
            let cx = clamp_u16(x, rect.x, (sat_add(rect.x, rect.width) - 1) as u16);
            let cy = clamp_u16(y, rect.y, (sat_add(rect.y, rect.height) - 1) as u16);
            Some(((cy - rect.y) as u16, (cx - rect.x) as u16))
        },
    }
}

pub fn terminal_cell_for_pane(x: u16, y: u16, regions: &Regions, pane: usize) -> (r: Option<(u16, u16)>)
    requires
        regions_wf(*regions),
        pane_area(*regions, pane) matches Some(rect) ==> clampable(rect),
    ensures
        r == spec_cell_for_pane(x, y, *regions, pane),
        r matches Some((row, col)) ==> pane_area(*regions, pane) matches Some(rect) && row < rect.height && col
            < rect.width,
{
    let rect = if regions.terminal_pane_count == 0 {
        if pane != 0 {
            return None;
        }
        regions.terminal_body
    } else {
        if pane >= regions.terminal_pane_count {
            return None;
        }
        regions.terminal_panes[pane]
    };
    if rect.width == 0 || rect.height == 0 {
        return None;
    }
    let max_x = rect.right() - 1;
    let max_y = rect.bottom() - 1;
    let cx = if x < rect.x {
        rect.x
    } else if x > max_x {
        max_x
    } else {
        x
    };
    let cy = if y < rect.y {
        rect.y
    } else if y > max_y {
        max_y
    } else {
        y
    };
    Some((cy - rect.y, cx - rect.x))
}

/// Width of the right-click menu.
pub const CONTEXT_MENU_WIDTH: u16 = 14;

/// Height of the right-click menu.
pub const CONTEXT_MENU_HEIGHT: u16 = 5;

pub open spec fn min_u16(a: u16, b: u16) -> u16 {
    if a <= b {
        a
    } else {
        b
    }
}

/// The menu rectangle for a right click at `anchor`, moved so that it stays
/// inside `root`.
pub open spec fn spec_context_menu_rect(root: Rect, anchor: (u16, u16)) -> Rect {
    let width = min_u16(CONTEXT_MENU_WIDTH, root.width);
    let height = min_u16(CONTEXT_MENU_HEIGHT, root.height);
    let max_x = sat_sub(sat_add(root.x, root.width), width);
    let max_y = sat_sub(sat_add(root.y, root.height), height);
    Rect {
        x: clamp_u16(anchor.0, root.x, max_x),
        y: clamp_u16(anchor.1, root.y, max_y),
        width,
        height,
    }
}

pub fn context_menu_rect(root: Rect, anchor: (u16, u16)) -> (r: Rect)
    requires
        root.x + root.width <= u16::MAX,
        root.y + root.height <= u16::MAX,
    ensures
        r == spec_context_menu_rect(root, anchor),
        root.width >= CONTEXT_MENU_WIDTH ==> r.x + r.width <= root.x + root.width,
        root.height >= CONTEXT_MENU_HEIGHT ==> r.y + r.height <= root.y + root.height,
        r.x >= root.x,
        r.y >= root.y,
{
    let width = if CONTEXT_MENU_WIDTH < root.width {
        CONTEXT_MENU_WIDTH
    } else {
        root.width
    };
    let height = if CONTEXT_MENU_HEIGHT < root.height {
        CONTEXT_MENU_HEIGHT
    } else {
        root.height
    };
    let max_x = root.right() - width;
    let max_y = root.bottom() - height;
    let x = if anchor.0 < root.x {
        root.x
    } else if anchor.0 > max_x {
        max_x
    } else {
        anchor.0
    };
    let y = if anchor.1 < root.y {
        root.y
    } else if anchor.1 > max_y {
        max_y
    } else {
        anchor.1
    };
    Rect { x, y, width, height }
}

/// A pane rectangle placed inside `area`, cut to the area.
pub open spec fn spec_offset_rect(area: Rect, rect: PaneRect) -> Rect {
    Rect {
        x: sat_add(area.x, rect.x),
        y: sat_add(area.y, rect.y),
        width: min_u16(rect.width, sat_sub(area.width, rect.x)),
        height: min_u16(rect.height, sat_sub(area.height, rect.y)),
    }
}

pub fn offset_rect(area: Rect, rect: PaneRect) -> (r: Rect)
    ensures
        r == spec_offset_rect(area, rect),
{
    let x = if rect.x > u16::MAX - area.x {
        u16::MAX
    } else {
        area.x + rect.x
    };
    let y = if rect.y > u16::MAX - area.y {
        u16::MAX
    } else {
        area.y + rect.y
    };
    let avail_w = if area.width < rect.x {
        0
    } else {
        area.width - rect.x
    };
    let avail_h = if area.height < rect.y {
        0
    } else {
        area.height - rect.y
    };
    Rect {
        x,
        y,
        width: if rect.width < avail_w {
            rect.width
        } else {
            avail_w
        },
        height: if rect.height < avail_h {
            rect.height
        } else {
            avail_h
        },
    }
}

/// Text cut to `width` characters: an ellipsis marks the cut, and a width
/// of one or less leaves only blanks.
pub open spec fn spec_fit_bar(s: Seq<char>, width: nat) -> Seq<char> {
    if s.len() <= width {
        s
    } else if width <= 1 {
        spaces(width)
    } else {
        s.take(width - 1).push('…')
    }
}

/// Text cut or padded with blanks to exactly `width` characters.
pub open spec fn spec_fit_and_pad(s: Seq<char>, width: nat) -> Seq<char> {
    let f = spec_fit_bar(s, width);
    if f.len() < width {
        f + spaces((width - f.len()) as nat)
    } else {
        f
    }
}

fn fit_bar_vec(v: &Vec<char>, width: usize) -> (r: Vec<char>)
    ensures
        r@ == spec_fit_bar(v@, width as nat),
{
    let mut r: Vec<char> = Vec::new();
    if v.len() <= width {
        append_chars(&mut r, v);
        assert(r@ =~= v@);
    } else if width <= 1 {
        append_repeat(&mut r, ' ', width);
        assert(r@ =~= spaces(width as nat));
    } else {
        let mut i: usize = 0;
        while i < width - 1
            invariant
                1 < width < v.len(),
                i <= width - 1,
                r@ == v@.take(i as int),
            decreases width - 1 - i,
        {
            r.push(v[i]);
            i = i + 1;
            assert(r@ =~= v@.take(i as int));
        }
        r.push('…');
    }
    r
}

/// Text cut to `width` characters for a bar.
pub fn fit_bar_text(text: &str, width: usize) -> (r: String)
    ensures
        r@ == spec_fit_bar(text@, width as nat),
        r@.len() <= width,
{
    let v = chars_of(text);
    string_of(&fit_bar_vec(&v, width))
}

/// Text cut or padded to exactly `width` characters, so that it covers
/// whatever was drawn there before.
pub fn fit_and_pad_text(text: &str, width: usize) -> (r: String)
    ensures
        r@ == spec_fit_and_pad(text@, width as nat),
        r@.len() == width,
{
    let v = chars_of(text);
    let mut f = fit_bar_vec(&v, width);
    if f.len() < width {
        let pad = width - f.len();
        append_repeat(&mut f, ' ', pad);
        assert(f@ =~= spec_fit_and_pad(text@, width as nat));
    }
    string_of(&f)
}

/// Columns of a window row's close button.
pub const WINDOW_CLOSE_WIDTH: u16 = 3;

/// The label of a window row: marker, index and name.
pub open spec fn window_label(marker: Seq<char>, win: Window) -> Seq<char> {
    marker + seq![' '] + dec_digits(win.index as nat) + ": "@ + win.name@
}

/// The texts of a window row `width` columns wide: the label cut or padded
/// to leave room for the close button, then the button; a row too narrow
/// for a label holds only the button.
pub open spec fn spec_window_row_texts(marker: Seq<char>, win: Window, width: nat) -> Seq<Seq<char>> {
    if width <= WINDOW_CLOSE_WIDTH {
        seq![" X "@]
    } else {
        let label = window_label(marker, win);
        let room = (width - WINDOW_CLOSE_WIDTH) as nat;
        let text = if label.len() >= room {
            label.take(room as int)
        } else {
            label + spaces((room - label.len()) as nat)
        };
        seq![text, " X "@]
    }
}

/// The texts of a window row.
pub fn window_row_texts(marker: &str, win: &Window, width: u16) -> (r: Vec<String>)
    ensures
        r@.len() == spec_window_row_texts(marker@, *win, width as nat).len(),
        forall|i: int| 0 <= i < r@.len() ==> #[trigger] r@[i]@ == spec_window_row_texts(marker@, *win, width as nat)[i],
{
    let close = String::from_str(" X ");
    if width <= WINDOW_CLOSE_WIDTH {
        return vec![close];
    }
    let mut label: Vec<char> = chars_of(marker);
    label.push(' ');
    push_decimal_vec(&mut label, win.index as u128);
    let sep = chars_of(": ");
    append_chars(&mut label, &sep);
    let name = chars_of(win.name.as_str());
    append_chars(&mut label, &name);
    proof {
        assert(label@ =~= window_label(marker@, *win));
    }
    let room = (width - WINDOW_CLOSE_WIDTH) as usize;
    let text: Vec<char> = if label.len() >= room {
        let mut t: Vec<char> = Vec::new();
        let mut i: usize = 0;
        while i < room
            invariant
                i <= room <= label.len(),
                t@ == label@.take(i as int),
            decreases room - i,
        {
            t.push(label[i]);
            i = i + 1;
            assert(t@ =~= label@.take(i as int));
        }
        t
    } else {
        let mut t = label;
        let pad = room - t.len();
        append_repeat(&mut t, ' ', pad);
        t
    };
    let r = vec![string_of(&text), close];
    proof {
        let spec = spec_window_row_texts(marker@, *win, width as nat);
        assert(r@[0]@ =~= spec[0]);
    }
    r
}

/// The share of pane `i` when `total` cells go to `count` panes (the count
/// taken as a 16-bit number): equal shares, the first `total % count`
/// panes one cell larger.
pub open spec fn split_len(total: u16, count: nat, i: int) -> u16 {
    let c = (count % 65536) as int;
    let base = (total as int / c) as u16;
    let rem = total as int % c;
    if i < rem {
        sat_add(base, 1)
    } else {
        base
    }
}

/// Splits `total` cells into `count` shares.
pub fn split_lengths(total: u16, count: usize) -> (r: Vec<u16>)
    requires
        count == 0 || count % 65536 != 0,
    ensures
        r@.len() == count,
        forall|i: int| 0 <= i < count ==> #[trigger] r@[i] == split_len(total, count as nat, i),
{
    let mut r: Vec<u16> = Vec::new();
    if count == 0 {
        return r;
    }
    let c = (count % 65536) as u16;
    let base = total / c;
    let mut remainder = total % c;
    let ghost rem0 = total % c;
    let mut i: usize = 0;
    while i < count
        invariant
            0 < c,
            c as int == (count % 65536) as int,
            base == total / c,
            rem0 == total % c,
            i <= count,
            remainder == if i < rem0 { (rem0 - i) as u16 } else { 0u16 },
            r@.len() == i,
            forall|j: int| 0 <= j < i ==> #[trigger] r@[j] == split_len(total, count as nat, j),
        decreases count - i,
    {
        let extra: u16 = if remainder > 0 { 1 } else { 0 };
        remainder = if remainder > 0 { remainder - 1 } else { 0 };
        let len = if base == u16::MAX { base } else { base + extra };
        r.push(len);
        i = i + 1;
    }
    r
}

/// Where each of the panes starts along the split axis: one cell of
/// separator after each pane before it.
pub open spec fn pane_start(start: u16, lens: Seq<u16>, i: nat) -> u16
    decreases i,
{
    if i == 0 {
        start
    } else {
        sat_add(sat_add(pane_start(start, lens, (i - 1) as nat), lens[i - 1]), 1)
    }
}

/// The shares of the cells left after one separator between each two panes.
pub open spec fn pane_lens(area: Rect, axis: PaneAxis, count: nat) -> Seq<u16> {
    let extent = match axis {
        PaneAxis::Columns => area.width,
        PaneAxis::Rows => area.height,
    };
    let available = sat_sub(extent, ((count - 1) % 65536) as u16);
    Seq::new(count, |i: int| split_len(available, count, i))
}

/// The rectangles of `count` panes side by side (`Columns`) or stacked
/// (`Rows`) in `area`.
pub open spec fn spec_pane_rects(area: Rect, axis: PaneAxis, count: nat) -> Seq<Rect> {
    if count == 0 || area.width == 0 || area.height == 0 {
        seq![]
    } else if count == 1 {
        seq![area]
    } else {
        let lens = pane_lens(area, axis, count);
        Seq::new(
            count,
            |i: int|
                match axis {
                    PaneAxis::Columns => Rect {
                        x: pane_start(area.x, lens, i as nat),
                        y: area.y,
                        width: lens[i],
                        height: area.height,
                    },
                    PaneAxis::Rows => Rect {
                        x: area.x,
                        y: pane_start(area.y, lens, i as nat),
                        width: area.width,
                        height: lens[i],
                    },
                },
        )
    }
}

/// The rectangles of `count` panes in `area`.
pub fn pane_rects(area: Rect, axis: PaneAxis, count: usize) -> (r: Vec<Rect>)
    requires
        count % 65536 != 0 || count == 0,
    ensures
        r@ == spec_pane_rects(area, axis, count as nat),
{
    if count == 0 || area.width == 0 || area.height == 0 {
        let r: Vec<Rect> = Vec::new();
        assert(r@ =~= spec_pane_rects(area, axis, count as nat));
        return r;
    }
    if count == 1 {
        let r = vec![area];
        assert(r@ =~= spec_pane_rects(area, axis, count as nat));
        return r;
    }
    let seps = ((count - 1) % 65536) as u16;
    let extent = match axis {
        PaneAxis::Columns => area.width,
        PaneAxis::Rows => area.height,
    };
    let available = if extent < seps { 0 } else { extent - seps };
    let lens = split_lengths(available, count);
    let ghost spec_lens = pane_lens(area, axis, count as nat);
    assert(lens@ =~= spec_lens);
    let mut r: Vec<Rect> = Vec::new();
    let mut pos: u16 = match axis {
        PaneAxis::Columns => area.x,
        PaneAxis::Rows => area.y,
    };
    let mut i: usize = 0;
    while i < count
        invariant
            1 < count,
            area.width > 0,
            area.height > 0,
            lens@ == spec_lens,
            spec_lens == pane_lens(area, axis, count as nat),
            lens@.len() == count,
            i <= count,
            pos == pane_start(
                match axis {
                    PaneAxis::Columns => area.x,
                    PaneAxis::Rows => area.y,
                },
                spec_lens,
                i as nat,
            ),
            r@ == spec_pane_rects(area, axis, count as nat).take(i as int),
        decreases count - i,
    {
        let len = lens[i];
        let rect = match axis {
            PaneAxis::Columns => Rect { x: pos, y: area.y, width: len, height: area.height },
            PaneAxis::Rows => Rect { x: area.x, y: pos, width: area.width, height: len },
        };
        let ghost start = match axis {
            PaneAxis::Columns => area.x,
            PaneAxis::Rows => area.y,
        };
        assert(rect == spec_pane_rects(area, axis, count as nat)[i as int]);
        r.push(rect);
        let step = if len > u16::MAX - pos { u16::MAX } else { pos + len };
        pos = if step == u16::MAX { u16::MAX } else { step + 1 };
        assert(pos == pane_start(start, spec_lens, (i + 1) as nat));
        i = i + 1;
        assert(r@ =~= spec_pane_rects(area, axis, count as nat).take(i as int));
    }
    assert(r@ =~= spec_pane_rects(area, axis, count as nat));
    r
}

/// The sum of some lengths.
pub open spec fn sum_lens(s: Seq<u16>) -> int
    decreases s.len(),
{
    if s.len() == 0 {
        0
    } else {
        sum_lens(s.drop_last()) + s.last()
    }
}

proof fn lemma_split_prefix_sum(total: u16, count: nat, k: nat)
    requires
        0 < count < 65536,
        k <= count,
    ensures
        sum_lens(Seq::new(k, |i: int| split_len(total, count, i))) == k * (total as int / count as int) + if k
            < total as int % count as int {
            k as int
        } else {
            total as int % count as int
        },
    decreases k,
{
    let c = count as int;
    let base = total as int / c;
    let rem = total as int % c;
    vstd::arithmetic::div_mod::lemma_fundamental_div_mod(total as int, c);
    assert(count % 65536 == count);
    if k > 0 {
        let prev = Seq::new((k - 1) as nat, |i: int| split_len(total, count, i));
        let cur = Seq::new(k, |i: int| split_len(total, count, i));
        assert(cur.drop_last() =~= prev);
        lemma_split_prefix_sum(total, count, (k - 1) as nat);
        assert(0 <= base <= total) by (nonlinear_arith)
            requires
                0 <= total,
                0 < c,
                base == total as int / c,
        ;
        if k - 1 < rem {
            assert(base + 1 <= 65535) by (nonlinear_arith)
                requires
                    total as int == c * base + rem,
                    0 < rem,
                    1 <= c,
                    0 <= base,
                    total <= 65535,
            ;
        }
        assert(k * base == (k - 1) * base + base) by (nonlinear_arith);
        assert(cur.last() == split_len(total, count, k - 1));
        assert(split_len(total, count, k - 1) == if k - 1 < rem { base + 1 } else { base });
        assert(sum_lens(cur) == sum_lens(prev) + cur.last());
    } else {
        assert(k * base == 0) by (nonlinear_arith)
            requires
                k == 0,
        ;
    }
}

/// Splitting hands out every cell: for up to 65535 panes the shares add up
/// to the total.
pub proof fn split_lengths_cover_total(total: u16, count: nat)
    requires
        0 < count < 65536,
    ensures
        sum_lens(Seq::new(count, |i: int| split_len(total, count, i))) == total,
{
    lemma_split_prefix_sum(total, count, count);
    vstd::arithmetic::div_mod::lemma_fundamental_div_mod(total as int, count as int);
    assert((total as int % count as int) < (count as int));
}

/// Where the terminal cursor at `(row, col)` is shown in `area`: moved by
/// the area's corner and kept on its last column and row; nowhere when
/// there is no cursor or the area is empty.
pub open spec fn spec_cursor_position(area: Rect, cursor: Option<(u16, u16)>) -> Option<(u16, u16)> {
    match cursor {
        Some((row, col)) => if area.width > 0 && area.height > 0 {
            Some(
                (
                    min_u16(sat_add(area.x, col), (sat_add(area.x, area.width) - 1) as u16),
                    min_u16(sat_add(area.y, row), (sat_add(area.y, area.height) - 1) as u16),
                ),
            )
        } else {
            None
        },
        None => None,
    }
}

/// The screen cell `(x, y)` where the terminal cursor is shown in `area`.
pub fn cursor_position(area: Rect, cursor: Option<(u16, u16)>) -> (r: Option<(u16, u16)>)
    ensures
        r == spec_cursor_position(area, cursor),
{
    match cursor {
        Some((row, col)) => {
            if area.width > 0 && area.height > 0 {
                let x = if col > u16::MAX - area.x { u16::MAX } else { area.x + col };
                let y = if row > u16::MAX - area.y { u16::MAX } else { area.y + row };
                let last_x = area.right() - 1;
                let last_y = area.bottom() - 1;
                Some((if x < last_x { x } else { last_x }, if y < last_y { y } else { last_y }))
            } else {
                None
            }
        },
        None => None,
    }
}

/// A size rule for one part of a layout.
#[derive(Debug, Clone, Copy, PartialEq, Eq, Structural)]
pub enum LayoutConstraint {
    /// At least this many cells, growing to take what is left.
    Min(u16),
    /// Exactly this many cells.
    Length(u16),
}

/// The cells the `Length` parts take together.
pub open spec fn fixed_total(cs: Seq<LayoutConstraint>) -> nat
    decreases cs.len(),
{
    if cs.len() == 0 {
        0
    } else {
        fixed_total(cs.drop_last()) + match cs.last() {
            LayoutConstraint::Length(n) => n as nat,
            LayoutConstraint::Min(_) => 0,
        }
    }
}

/// How many `Min` parts there are, and the cells they ask for at least.
pub open spec fn min_parts(cs: Seq<LayoutConstraint>) -> (nat, nat)
    decreases cs.len(),
{
    if cs.len() == 0 {
        (0, 0)
    } else {
        let (k, m) = min_parts(cs.drop_last());
        match cs.last() {
            LayoutConstraint::Min(n) => (k + 1, m + n as nat),
            LayoutConstraint::Length(_) => (k, m),
        }
    }
}

/// The area's start and extent along the split axis.
pub open spec fn along(area: Rect, horizontal: bool) -> (nat, nat) {
    if horizontal {
        (area.x as nat, area.width as nat)
    } else {
        (area.y as nat, area.height as nat)
    }
}

/// Lengths and one `Min` that all fit the area, which ends within the
/// coordinate range: the shape whose split the solver settles exactly.
pub open spec fn one_min_fits(area: Rect, horizontal: bool, cs: Seq<LayoutConstraint>) -> bool {
    let (pos, ext) = along(area, horizontal);
    &&& cs.len() <= 16
    &&& min_parts(cs).0 == 1
    &&& fixed_total(cs) + min_parts(cs).1 <= ext
    &&& pos + ext <= u16::MAX
}

/// The size of part `i`: a `Length` its own, the `Min` what the `Length`s
/// leave of `ext`.
pub open spec fn part_len(cs: Seq<LayoutConstraint>, i: int, ext: nat) -> nat {
    match cs[i] {
        LayoutConstraint::Length(n) => n as nat,
        LayoutConstraint::Min(_) => (ext - fixed_total(cs)) as nat,
    }
}

/// Where part `i` starts, counted from the area's start.
pub open spec fn part_offset(cs: Seq<LayoutConstraint>, i: int, ext: nat) -> nat
    decreases i,
{
    if i <= 0 {
        0
    } else {
        part_offset(cs, i - 1, ext) + part_len(cs, i - 1, ext)
    }
}

/// The parts laid end to end from the area's start, each across the area.
pub open spec fn stacked(area: Rect, horizontal: bool, cs: Seq<LayoutConstraint>) -> Seq<Rect> {
    let (pos, ext) = along(area, horizontal);
    Seq::new(
        cs.len(),
        |i: int|
            if horizontal {
                Rect {
                    x: (pos + part_offset(cs, i, ext)) as u16,
                    y: area.y,
                    width: part_len(cs, i, ext) as u16,
                    height: area.height,
                }
            } else {
                Rect {
                    x: area.x,
                    y: (pos + part_offset(cs, i, ext)) as u16,
                    width: area.width,
                    height: part_len(cs, i, ext) as u16,
                }
            },
    )
}

/// Parts that lie inside `area` along the split axis, in order and without
/// overlapping, each spanning the whole area across the axis.
pub open spec fn parts_in_area(area: Rect, horizontal: bool, parts: Seq<Rect>) -> bool {
    let (pos, ext) = along(area, horizontal);
    &&& forall|i: int|
        0 <= i < parts.len() ==> {
            let (p, e) = along(#[trigger] parts[i], horizontal);
            &&& pos <= p
            &&& p + e <= pos + ext
            &&& if horizontal {
                parts[i].y == area.y && parts[i].height == area.height
            } else {
                parts[i].x == area.x && parts[i].width == area.width
            }
        }
    &&& forall|i: int|
        0 <= i < parts.len() - 1 ==> along(#[trigger] parts[i], horizontal).0 + along(parts[i], horizontal).1
            <= along(parts[i + 1], horizontal).0
}

/// What any split of `area` by `cs` gives: one part per constraint, inside
/// the area and in order; and, for `Length`s and one `Min` that fit, the
/// parts laid end to end with the `Min` taking what is left.
pub open spec fn split_outcome(area: Rect, horizontal: bool, cs: Seq<LayoutConstraint>, parts: Seq<Rect>) -> bool {
    &&& parts.len() == cs.len()
    &&& parts_in_area(area, horizontal, parts)
    &&& one_min_fits(area, horizontal, cs) ==> parts == stacked(area, horizontal, cs)
}

/// ratatui's `Layout::split` of `area` along one axis by `constraints`
/// (default `Flex::Start`, no margin, no spacing). Claimed of every call:
/// one rectangle per constraint; the solver's variables are required to
/// lie within the area and to ascend, and rounding keeps that, so the parts
/// lie inside the area in order without overlapping, and each spans the
/// area across the axis. For `Length`s and one `Min` that fit, the optimum
/// is unique and the claim is also what the parts are: each `Length`
/// (strong) keeps its size, the `Min`'s medium growth towards the whole
/// area outweighs the last spacer's tenfold weaker growth and the weak
/// pull of the parts towards equal sizes, so the `Min` takes what the
/// `Length`s leave and the parts lie end to end. Other splits can have
/// several optimal answers, and which one the solver returns depends on
/// the order in which its hash maps are walked; nothing more is claimed
/// of them.
#[verifier::external_body]
fn split_layout(area: Rect, horizontal: bool, constraints: &Vec<LayoutConstraint>) -> (r: Vec<Rect>)
    ensures
        r@.len() == constraints@.len(),
        parts_in_area(area, horizontal, r@),
        one_min_fits(area, horizontal, constraints@) ==> r@ == stacked(area, horizontal, constraints@),
{
    let direction = if horizontal { ratatui::layout::Direction::Horizontal } else { ratatui::layout::Direction::Vertical };
    let parts = constraints.iter().map(|c| match *c {
        LayoutConstraint::Min(n) => ratatui::layout::Constraint::Min(n),
        LayoutConstraint::Length(n) => ratatui::layout::Constraint::Length(n),
    });
    let area = ratatui::layout::Rect { x: area.x, y: area.y, width: area.width, height: area.height };
    let chunks = ratatui::layout::Layout::default().direction(direction).constraints(parts).split(area);
    chunks.iter().map(|a| Rect { x: a.x, y: a.y, width: a.width, height: a.height }).collect()
}

/// The terminal body and, when there is room, the side rail of terminal
/// mode.
#[derive(Debug, Clone, Copy, PartialEq, Eq)]
pub struct TerminalModeLayout {
    pub terminal_body: Rect,
    pub side_rail: Option<Rect>,
}

/// The width of the side rail: up to 20 columns beyond the 80 that the
/// terminal keeps.
pub open spec fn rail_width(area: Rect) -> u16 {
    min_u16(20, sat_sub(area.width, 80))
}

/// Whether terminal mode keeps a rail: the screen is at least 100 columns
/// by 8 rows and a rail of 16 columns or more fits.
pub open spec fn has_rail(area: Rect) -> bool {
    !(area.width < 100 || area.height < 8 || rail_width(area) < 16)
}

/// Terminal mode gives the whole screen to the terminal unless it has a
/// rail; then the body (at least 80 columns) and the rail (`rail_width`
/// columns) split the screen side by side, the rail at the right edge.
pub open spec fn terminal_mode_layout_ok(area: Rect, r: TerminalModeLayout) -> bool {
    if !has_rail(area) {
        r == (TerminalModeLayout { terminal_body: area, side_rail: None })
    } else {
        r.side_rail matches Some(rail) && split_outcome(
            area,
            true,
            seq![LayoutConstraint::Min(80), LayoutConstraint::Length(rail_width(area))],
            seq![r.terminal_body, rail],
        )
    }
}

/// The layout of terminal mode.
pub fn terminal_mode_layout(area: Rect) -> (r: TerminalModeLayout)
    ensures
        terminal_mode_layout_ok(area, r),
        area.x + area.width <= u16::MAX && r.side_rail is Some ==> r.terminal_body == (Rect {
            x: area.x,
            y: area.y,
            width: (area.width - 20) as u16,
            height: area.height,
        }) && r.side_rail == Some(
            Rect { x: (area.x + area.width - 20) as u16, y: area.y, width: 20, height: area.height },
        ),
{
    if area.width < 100 || area.height < 8 {
        return TerminalModeLayout { terminal_body: area, side_rail: None };
    }
    let spare = area.width - 80;
    let rail = if spare < 20 { spare } else { 20 };
    if rail < 16 {
        return TerminalModeLayout { terminal_body: area, side_rail: None };
    }
    let cs = vec![LayoutConstraint::Min(80), LayoutConstraint::Length(rail)];
    let parts = split_layout(area, true, &cs);
    proof {
        let sc = seq![LayoutConstraint::Min(80), LayoutConstraint::Length(rail)];
        assert(cs@ =~= sc);
        lemma_two_parts(area, true, sc);
        lemma_one_part(LayoutConstraint::Min(80));
        lemma_one_part(LayoutConstraint::Length(rail));
        if area.x + area.width <= u16::MAX {
            assert(one_min_fits(area, true, sc));
            let st = stacked(area, true, sc);
            assert(parts@[0] == st[0]);
            assert(parts@[1] == st[1]);
        }
        assert(seq![parts@[0], parts@[1]] =~= parts@);
    }
    TerminalModeLayout { terminal_body: parts[0], side_rail: Some(parts[1]) }
}

/// The sums over a layout of one part.
proof fn lemma_one_part(c: LayoutConstraint)
    ensures
        fixed_total(seq![c]) == match c {
            LayoutConstraint::Length(n) => n as nat,
            LayoutConstraint::Min(_) => 0,
        },
        min_parts(seq![c]) == match c {
            LayoutConstraint::Min(n) => (1nat, n as nat),
            LayoutConstraint::Length(_) => (0nat, 0nat),
        },
{
    assert(seq![c].drop_last() =~= Seq::<LayoutConstraint>::empty());
    reveal_with_fuel(fixed_total, 2);
    reveal_with_fuel(min_parts, 2);
}

/// The sums over a layout of two parts.
proof fn lemma_two_parts(area: Rect, horizontal: bool, cs: Seq<LayoutConstraint>)
    requires
        cs.len() == 2,
    ensures
        fixed_total(cs) == fixed_total(seq![cs[0]]) + fixed_total(seq![cs[1]]),
        min_parts(cs).0 == min_parts(seq![cs[0]]).0 + min_parts(seq![cs[1]]).0,
        min_parts(cs).1 == min_parts(seq![cs[0]]).1 + min_parts(seq![cs[1]]).1,
        part_offset(cs, 0, along(area, horizontal).1) == 0,
        part_offset(cs, 1, along(area, horizontal).1) == part_len(cs, 0, along(area, horizontal).1),
{
    assert(cs.drop_last() =~= seq![cs[0]]);
    assert(seq![cs[0]].drop_last() =~= Seq::<LayoutConstraint>::empty());
    assert(seq![cs[1]].drop_last() =~= Seq::<LayoutConstraint>::empty());
    reveal_with_fuel(part_offset, 2);
    reveal_with_fuel(fixed_total, 2);
    reveal_with_fuel(min_parts, 2);
}

/// The sums over a layout of three parts.
proof fn lemma_three_parts(area: Rect, horizontal: bool, cs: Seq<LayoutConstraint>)
    requires
        cs.len() == 3,
    ensures
        fixed_total(cs) == fixed_total(seq![cs[0]]) + fixed_total(seq![cs[1]]) + fixed_total(seq![cs[2]]),
        min_parts(cs).0 == min_parts(seq![cs[0]]).0 + min_parts(seq![cs[1]]).0 + min_parts(seq![cs[2]]).0,
        min_parts(cs).1 == min_parts(seq![cs[0]]).1 + min_parts(seq![cs[1]]).1 + min_parts(seq![cs[2]]).1,
        part_offset(cs, 0, along(area, horizontal).1) == 0,
        part_offset(cs, 1, along(area, horizontal).1) == part_len(cs, 0, along(area, horizontal).1),
        part_offset(cs, 2, along(area, horizontal).1) == part_len(cs, 0, along(area, horizontal).1)
            + part_len(cs, 1, along(area, horizontal).1),
{
    lemma_two_parts(area, horizontal, cs.drop_last());
    assert(cs.drop_last()[0] == cs[0] && cs.drop_last()[1] == cs[1]);
    lemma_one_part(cs[0]);
    lemma_one_part(cs[1]);
    lemma_one_part(cs[2]);
    reveal_with_fuel(part_offset, 3);
}

/// The main area and the sidebar of navigation mode: the sidebar takes 26
/// columns at the right edge, the main area at least 30.
pub open spec fn navigation_layout_ok(root: Rect, r: (Rect, Rect)) -> bool {
    split_outcome(root, true, seq![LayoutConstraint::Min(30), LayoutConstraint::Length(26)], seq![r.0, r.1])
}

/// The layout of navigation mode.
pub fn navigation_layout(root: Rect) -> (r: (Rect, Rect))
    ensures
        navigation_layout_ok(root, r),
        root.x + root.width <= u16::MAX && root.width >= 56 ==> r.0 == (Rect {
            x: root.x,
            y: root.y,
            width: (root.width - 26) as u16,
            height: root.height,
        }) && r.1 == (Rect { x: (root.x + root.width - 26) as u16, y: root.y, width: 26, height: root.height }),
{
    let cs = vec![LayoutConstraint::Min(30), LayoutConstraint::Length(26)];
    let parts = split_layout(root, true, &cs);
    proof {
        let sc = seq![LayoutConstraint::Min(30), LayoutConstraint::Length(26)];
        assert(cs@ =~= sc);
        lemma_two_parts(root, true, sc);
        lemma_one_part(LayoutConstraint::Min(30));
        lemma_one_part(LayoutConstraint::Length(26));
        if root.x + root.width <= u16::MAX && root.width >= 56 {
            assert(one_min_fits(root, true, sc));
            let st = stacked(root, true, sc);
            assert(parts@[0] == st[0]);
            assert(parts@[1] == st[1]);
        }
        assert(seq![parts@[0], parts@[1]] =~= parts@);
    }
    (parts[0], parts[1])
}

/// The sections of the terminal-mode rail, top to bottom: the Detach button
/// (3 rows), the window list (at least 4) and the status panel (3).
pub open spec fn rail_sections_ok(area: Rect, r: (Rect, Rect, Rect)) -> bool {
    split_outcome(
        area,
        false,
        seq![LayoutConstraint::Length(3), LayoutConstraint::Min(4), LayoutConstraint::Length(3)],
        seq![r.0, r.1, r.2],
    )
}

/// The sections of the terminal-mode rail.
pub fn rail_sections(area: Rect) -> (r: (Rect, Rect, Rect))
    ensures
        rail_sections_ok(area, r),
        area.y + area.height <= u16::MAX && area.height >= 10 ==> r.0 == (Rect {
            x: area.x,
            y: area.y,
            width: area.width,
            height: 3,
        }) && r.1 == (Rect { x: area.x, y: (area.y + 3) as u16, width: area.width, height: (area.height - 6) as u16 })
            && r.2 == (Rect { x: area.x, y: (area.y + area.height - 3) as u16, width: area.width, height: 3 }),
{
    let cs = vec![LayoutConstraint::Length(3), LayoutConstraint::Min(4), LayoutConstraint::Length(3)];
    let parts = split_layout(area, false, &cs);
    proof {
        let sc = seq![LayoutConstraint::Length(3), LayoutConstraint::Min(4), LayoutConstraint::Length(3)];
        assert(cs@ =~= sc);
        lemma_three_parts(area, false, sc);
        lemma_one_part(sc[0]);
        lemma_one_part(sc[1]);
        lemma_one_part(sc[2]);
        if area.y + area.height <= u16::MAX && area.height >= 10 {
            assert(one_min_fits(area, false, sc));
            let st = stacked(area, false, sc);
            assert(parts@[0] == st[0]);
            assert(parts@[1] == st[1]);
            assert(parts@[2] == st[2]);
        }
        assert(seq![parts@[0], parts@[1], parts@[2]] =~= parts@);
    }
    (parts[0], parts[1], parts[2])
}

/// The sections of the navigation sidebar, top to bottom: the Detach button
/// (3 rows), the status line (2) and the window list (at least 5).
pub open spec fn sidebar_sections_ok(area: Rect, r: (Rect, Rect, Rect)) -> bool {
    split_outcome(
        area,
        false,
        seq![LayoutConstraint::Length(3), LayoutConstraint::Length(2), LayoutConstraint::Min(5)],
        seq![r.0, r.1, r.2],
    )
}

/// The sections of the navigation sidebar.
pub fn sidebar_sections(area: Rect) -> (r: (Rect, Rect, Rect))
    ensures
        sidebar_sections_ok(area, r),
        area.y + area.height <= u16::MAX && area.height >= 10 ==> r.0 == (Rect {
            x: area.x,
            y: area.y,
            width: area.width,
            height: 3,
        }) && r.1 == (Rect { x: area.x, y: (area.y + 3) as u16, width: area.width, height: 2 })
            && r.2 == (Rect { x: area.x, y: (area.y + 5) as u16, width: area.width, height: (area.height - 5) as u16 }),
{
    let cs = vec![LayoutConstraint::Length(3), LayoutConstraint::Length(2), LayoutConstraint::Min(5)];
    let parts = split_layout(area, false, &cs);
    proof {
        let sc = seq![LayoutConstraint::Length(3), LayoutConstraint::Length(2), LayoutConstraint::Min(5)];
        assert(cs@ =~= sc);
        lemma_three_parts(area, false, sc);
        lemma_one_part(sc[0]);
        lemma_one_part(sc[1]);
        lemma_one_part(sc[2]);
        if area.y + area.height <= u16::MAX && area.height >= 10 {
            assert(one_min_fits(area, false, sc));
            let st = stacked(area, false, sc);
            assert(parts@[0] == st[0]);
            assert(parts@[1] == st[1]);
            assert(parts@[2] == st[2]);
        }
        assert(seq![parts@[0], parts@[1], parts@[2]] =~= parts@);
    }
    (parts[0], parts[1], parts[2])
}

/// Where a rectangle starts along the split axis.
pub open spec fn axis_pos(r: Rect, axis: PaneAxis) -> int {
    match axis {
        PaneAxis::Columns => r.x as int,
        PaneAxis::Rows => r.y as int,
    }
}

/// A rectangle's extent along the split axis.
pub open spec fn axis_len(r: Rect, axis: PaneAxis) -> int {
    match axis {
        PaneAxis::Columns => r.width as int,
        PaneAxis::Rows => r.height as int,
    }
}

proof fn lemma_sum_take_step(s: Seq<u16>, k: int)
    requires
        0 < k <= s.len(),
    ensures
        sum_lens(s.take(k)) == sum_lens(s.take(k - 1)) + s[k - 1],
{
    assert(s.take(k).drop_last() =~= s.take(k - 1));
}

proof fn lemma_sum_take_mono(s: Seq<u16>, k: int)
    requires
        0 <= k <= s.len(),
    ensures
        0 <= sum_lens(s.take(k)) <= sum_lens(s),
    decreases s.len() - k,
{
    if k < s.len() {
        lemma_sum_take_mono(s, k + 1);
        lemma_sum_take_step(s, k + 1);
    } else {
        assert(s.take(k) =~= s);
    }
    if k > 0 {
        lemma_sum_take_nonneg(s, k);
    } else {
        assert(s.take(0).len() == 0);
    }
}

proof fn lemma_sum_take_nonneg(s: Seq<u16>, k: int)
    requires
        0 <= k <= s.len(),
    ensures
        0 <= sum_lens(s.take(k)),
    decreases k,
{
    if k > 0 {
        lemma_sum_take_nonneg(s, k - 1);
        lemma_sum_take_step(s, k);
    } else {
        assert(s.take(0).len() == 0);
    }
}

proof fn lemma_pane_start_exact(start: u16, lens: Seq<u16>, k: nat)
    requires
        k <= lens.len(),
        start + sum_lens(lens.take(k as int)) + k <= 65535,
    ensures
        pane_start(start, lens, k) == start + sum_lens(lens.take(k as int)) + k,
    decreases k,
{
    if k > 0 {
        lemma_sum_take_step(lens, k as int);
        lemma_sum_take_nonneg(lens, k - 1);
        lemma_pane_start_exact(start, lens, (k - 1) as nat);
    } else {
        assert(lens.take(0).len() == 0);
    }
}

/// Panes cut from an area that has room for their separators tile it
/// exactly: the first starts at the area's edge, each next one starts one
/// separator cell after the previous one ends, and the last one ends at
/// the area's far edge.
pub proof fn pane_rects_tile_area(area: Rect, axis: PaneAxis, count: nat)
    requires
        2 <= count < 65536,
        area.width > 0,
        area.height > 0,
        count <= axis_len(area, axis) + 1,
        axis_pos(area, axis) + axis_len(area, axis) <= 65535,
    ensures
        spec_pane_rects(area, axis, count).len() == count,
        axis_pos(spec_pane_rects(area, axis, count)[0], axis) == axis_pos(area, axis),
        forall|i: int|
            0 <= i < count - 1 ==> axis_pos(#[trigger] spec_pane_rects(area, axis, count)[i + 1], axis)
                == axis_pos(spec_pane_rects(area, axis, count)[i], axis) + axis_len(
                spec_pane_rects(area, axis, count)[i],
                axis,
            ) + 1,
        axis_pos(spec_pane_rects(area, axis, count)[count - 1], axis) + axis_len(
            spec_pane_rects(area, axis, count)[count - 1],
            axis,
        ) == axis_pos(area, axis) + axis_len(area, axis),
{
    let rects = spec_pane_rects(area, axis, count);
    let lens = pane_lens(area, axis, count);
    let extent = axis_len(area, axis);
    let start: u16 = match axis {
        PaneAxis::Columns => area.x,
        PaneAxis::Rows => area.y,
    };
    let available = sat_sub(
        match axis {
            PaneAxis::Columns => area.width,
            PaneAxis::Rows => area.height,
        },
        ((count - 1) % 65536) as u16,
    );
    assert(available == extent - (count - 1));
    split_lengths_cover_total(available, count);
    assert(lens =~= Seq::new(count, |i: int| split_len(available, count, i)));
    assert(sum_lens(lens) == available);
    assert forall|k: int| 0 <= k < count implies pane_start(start, lens, k as nat) == start + sum_lens(lens.take(k)) + k by {
        lemma_sum_take_mono(lens, k);
        if k > 0 {
            lemma_sum_take_step(lens, k);
        }
        lemma_sum_take_mono(lens, k + 1);
        lemma_sum_take_step(lens, k + 1);
        lemma_pane_start_exact(start, lens, k as nat);
    }
    assert forall|i: int| 0 <= i < count implies axis_pos(#[trigger] rects[i], axis) == pane_start(start, lens, i as nat)
        && axis_len(rects[i], axis) == lens[i] by {
    }
    assert forall|i: int|
        0 <= i < count - 1 implies axis_pos(#[trigger] rects[i + 1], axis) == axis_pos(rects[i], axis) + axis_len(
        rects[i],
        axis,
    ) + 1 by {
        assert(axis_pos(rects[i], axis) == pane_start(start, lens, i as nat));
        assert(axis_pos(rects[i + 1], axis) == pane_start(start, lens, (i + 1) as nat));
        lemma_sum_take_step(lens, i + 1);
    }
    assert(lens.take(0).len() == 0);
    assert(axis_pos(rects[0], axis) == pane_start(start, lens, 0));
    let last = count - 1;
    assert(axis_pos(rects[last], axis) == pane_start(start, lens, last as nat));
    lemma_sum_take_step(lens, count as int);
    assert(lens.take(count as int) =~= lens);
}

/// The row rectangle of window row `i` in a list drawn from `(x, y)`, and
/// its close button at the row's right end.
pub open spec fn window_row_rects(x: u16, y: u16, width: u16, i: int) -> (Rect, Rect) {
    let ry = sat_add(y, i as u16);
    (
        Rect { x, y: ry, width, height: 1 },
        Rect {
            x: sat_add(x, sat_sub(width, WINDOW_CLOSE_WIDTH)),
            y: ry,
            width: min_u16(WINDOW_CLOSE_WIDTH, width),
            height: 1,
        },
    )
}

/// Where the window list puts its rows and its `+ new` row.
#[derive(Debug, Clone, PartialEq, Eq)]
pub struct WindowListRegions {
    /// Each listed window's row and close button.
    pub rows: Vec<(Rect, Rect)>,
    /// The `+ new` row, when there is room for it.
    pub new_window: Option<Rect>,
}

fn row_rects(x: u16, y: u16, width: u16, count: usize) -> (r: Vec<(Rect, Rect)>)
    requires
        count <= 8,
    ensures
        r@.len() == count,
        forall|i: int| 0 <= i < count ==> #[trigger] r@[i] == window_row_rects(x, y, width, i),
{
    let mut r: Vec<(Rect, Rect)> = Vec::new();
    let mut i: usize = 0;
    while i < count
        invariant
            i <= count <= 8,
            r@.len() == i,
            forall|k: int| 0 <= k < i ==> #[trigger] r@[k] == window_row_rects(x, y, width, k),
        decreases count - i,
    {
        let step = i as u16;
        let ry = if step > u16::MAX - y { u16::MAX } else { y + step };
        let room = if width < WINDOW_CLOSE_WIDTH { 0 } else { width - WINDOW_CLOSE_WIDTH };
        let cx = if room > u16::MAX - x { u16::MAX } else { x + room };
        let cw = if WINDOW_CLOSE_WIDTH < width { WINDOW_CLOSE_WIDTH } else { width };
        r.push((Rect { x, y: ry, width, height: 1 }, Rect { x: cx, y: ry, width: cw, height: 1 }));
        i = i + 1;
    }
    r
}

/// The window list inside the side rail's `inner` area: as many windows as
/// fit above one spare row (at most eight), then `+ new` if a row is left.
pub open spec fn spec_rail_rows(inner: Rect, windows: nat) -> nat {
    let spare = if inner.height >= 1 { (inner.height - 1) as nat } else { 0 };
    let fit = if spare < 8 { spare } else { 8 };
    if windows < fit { windows } else { fit }
}

/// The regions of the side rail's window list.
pub fn rail_window_regions(inner: Rect, windows: usize) -> (r: WindowListRegions)
    ensures
        r.rows@.len() == spec_rail_rows(inner, windows as nat),
        forall|i: int| 0 <= i < r.rows@.len() ==> #[trigger] r.rows@[i] == window_row_rects(inner.x, inner.y, inner.width, i),
        r.new_window == if r.rows@.len() < inner.height {
            Some(Rect { x: inner.x, y: sat_add(inner.y, r.rows@.len() as u16), width: inner.width, height: 1 })
        } else {
            None
        },
{
    let spare: usize = if inner.height >= 1 { (inner.height - 1) as usize } else { 0 };
    let fit: usize = if spare < 8 { spare } else { 8 };
    let count: usize = if windows < fit { windows } else { fit };
    let rows = row_rects(inner.x, inner.y, inner.width, count);
    let new_window = if (count as u16) < inner.height {
        let step = count as u16;
        let ny = if step > u16::MAX - inner.y { u16::MAX } else { inner.y + step };
        Some(Rect { x: inner.x, y: ny, width: inner.width, height: 1 })
    } else {
        None
    };
    WindowListRegions { rows, new_window }
}

/// The regions of the sidebar's window list in `area` (inside its border):
/// up to eight windows, then the `+ new` row.
pub fn sidebar_window_regions(area: Rect, windows: usize) -> (r: WindowListRegions)
    requires
        area.x < u16::MAX,
    ensures
        r.rows@.len() == if windows < 8 { windows as nat } else { 8 },
        forall|i: int|
            0 <= i < r.rows@.len() ==> #[trigger] r.rows@[i] == window_row_rects(
                (area.x + 1) as u16,
                sat_add(area.y, 1),
                sat_sub(area.width, 2),
                i,
            ),
        r.new_window == Some(
            Rect {
                x: (area.x + 1) as u16,
                y: sat_add(sat_add(area.y, 1), r.rows@.len() as u16),
                width: sat_sub(area.width, 2),
                height: 1,
            },
        ),
{
    let count: usize = if windows < 8 { windows } else { 8 };
    let x = area.x + 1;
    let top = if area.y == u16::MAX { u16::MAX } else { area.y + 1 };
    let width = if area.width < 2 { 0 } else { area.width - 2 };
    let rows = row_rects(x, top, width, count);
    let step = count as u16;
    let ny = if step > u16::MAX - top { u16::MAX } else { top + step };
    WindowListRegions { rows, new_window: Some(Rect { x, y: ny, width, height: 1 }) }
}

/// The menu's entry rows inside its border: one per entry that fits.
pub fn menu_item_regions(inner: Rect) -> (r: Vec<Rect>)
    ensures
        r@.len() == if inner.height < 3 { inner.height as nat } else { 3 },
        forall|i: int|
            0 <= i < r@.len() ==> #[trigger] r@[i] == (Rect { x: inner.x, y: sat_add(inner.y, i as u16), width: inner.width, height: 1 }),
{
    let count: u16 = if inner.height < 3 { inner.height } else { 3 };
    let mut r: Vec<Rect> = Vec::new();
    let mut i: u16 = 0;
    while i < count
        invariant
            i <= count <= 3,
            r@.len() == i,
            forall|k: int|
                0 <= k < i ==> #[trigger] r@[k] == (Rect { x: inner.x, y: sat_add(inner.y, k as u16), width: inner.width, height: 1 }),
        decreases count - i,
    {
        let ry = if i > u16::MAX - inner.y { u16::MAX } else { inner.y + i };
        r.push(Rect { x: inner.x, y: ry, width: inner.width, height: 1 });
        i = i + 1;
    }
    r
}

} // verus!
