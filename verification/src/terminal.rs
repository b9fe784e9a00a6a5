//! Terminal-surface logic: cell styles, text selections, the input
//! normaliser that sits in front of the terminal emulator, OSC window titles
//! and OSC 52 clipboard requests, and the byte sequences that keys and mouse
//! events produce for a child program.

use base64::engine::general_purpose::STANDARD as BASE64_STANDARD;
use base64::Engine;
use vstd::prelude::*;
use vstd::slice::slice_to_vec;
use vstd::string::StringSliceAdditionalSpecFns;
use vstd::utf8::{decode_utf8, encode_utf8, encode_utf8_valid_utf8, is_char_boundary, valid_utf8};

use crate::mux_backend::{
    has_mod, KeyInput, KeyInputCode, MouseInputButton, MouseInputKind, MOD_ALT, MOD_CONTROL,
    MOD_SHIFT,
};
use crate::text::{
    control_char, dec_bytes, is_control_char, push_dec_bytes, push_utf8, skip_white_space,
    skip_white_space_back, string_of, trim,
};

verus! {

/// Longest title kept from an OSC title sequence, in characters.
pub const MAX_WINDOW_TITLE_CHARS: usize = 120;

/// Largest base64 payload of an OSC 52 copy request that is honoured.
pub const MAX_OSC52_BASE64_BYTES: usize = 1_048_576;

/// Largest clipboard text sent back in an OSC 52 paste response, in bytes.
pub const MAX_OSC52_RESPONSE_BYTES: usize = 1_048_576;

/// A cell colour.
#[derive(Debug, Clone, Copy, PartialEq, Eq, Structural)]
pub enum TerminalColor {
    Default,
    Indexed(u8),
    Rgb(u8, u8, u8),
}

/// The style of a terminal cell.
#[derive(Debug, Clone, Copy, PartialEq, Eq, Structural)]
pub struct TerminalStyle {
    pub fg: TerminalColor,
    pub bg: TerminalColor,
    pub bold: bool,
    pub dim: bool,
    pub italic: bool,
    pub underline: bool,
    pub inverse: bool,
}

/// Default colours and no attributes.
pub open spec fn default_style() -> TerminalStyle {
    TerminalStyle {
        fg: TerminalColor::Default,
        bg: TerminalColor::Default,
        bold: false,
        dim: false,
        italic: false,
        underline: false,
        inverse: false,
    }
}

impl Default for TerminalStyle {
    fn default() -> (s: Self)
        ensures
            s == default_style(),
    {
        TerminalStyle {
            fg: TerminalColor::Default,
            bg: TerminalColor::Default,
            bold: false,
            dim: false,
            italic: false,
            underline: false,
            inverse: false,
        }
    }
}

impl TerminalStyle {
    /// Whether this is the default style.
    pub fn is_default(self) -> (b: bool)
        ensures
            b == (self == default_style()),
    {
        self == TerminalStyle::default()
    }
}

/// A run of text sharing one style.
#[derive(Debug, Clone, PartialEq, Eq)]
pub struct TerminalSpan {
    pub text: String,
    pub style: TerminalStyle,
}

/// A text selection between two cells (inclusive), in either direction.
#[derive(Debug, Clone, Copy, PartialEq, Eq, Structural)]
pub struct SelectionRange {
    pub start_row: u16,
    pub start_col: u16,
    pub end_row: u16,
    pub end_col: u16,
}

/// Cell `(r1, c1)` comes no later than `(r2, c2)` in reading order.
pub open spec fn cell_le(r1: u16, c1: u16, r2: u16, c2: u16) -> bool {
    r1 < r2 || (r1 == r2 && c1 <= c2)
}

/// The selection with its start no later than its end.
pub open spec fn spec_normalized(s: SelectionRange) -> SelectionRange {
    if cell_le(s.start_row, s.start_col, s.end_row, s.end_col) {
        s
    } else {
        SelectionRange {
            start_row: s.end_row,
            start_col: s.end_col,
            end_row: s.start_row,
            end_col: s.start_col,
        }
    }
}

/// Whether a cell lies between the selection's ends (inclusive) in reading
/// order.
pub open spec fn selection_contains(s: SelectionRange, row: u16, col: u16) -> bool {
    let n = spec_normalized(s);
    cell_le(n.start_row, n.start_col, row, col) && cell_le(row, col, n.end_row, n.end_col)
}

impl SelectionRange {
    pub fn new(start_row: u16, start_col: u16, end_row: u16, end_col: u16) -> (r: Self)
        ensures
            r == (SelectionRange { start_row, start_col, end_row, end_col }),
    {
        SelectionRange { start_row, start_col, end_row, end_col }
    }

    /// The same selection with its start no later than its end.
    pub fn normalized(self) -> (r: Self)
        ensures
            r == spec_normalized(self),
    {
        if self.start_row < self.end_row || (self.start_row == self.end_row && self.start_col
            <= self.end_col) {
            self
        } else {
            SelectionRange {
                start_row: self.end_row,
                start_col: self.end_col,
                end_row: self.start_row,
                end_col: self.start_col,
            }
        }
    }

    /// Whether the cell at `(row, col)` is selected.
    pub fn contains_cell(self, row: u16, col: u16) -> (b: bool)
        ensures
            b == selection_contains(self, row, col),
    {
        let range = self.normalized();
        (range.start_row < row || (range.start_row == row && range.start_col <= col)) && (row
            < range.end_row || (row == range.end_row && col <= range.end_col))
    }
}

/// Normalising puts the start first, is idempotent, and keeps the two ends;
/// a selection dragged in either direction covers the same cells.
pub proof fn selection_normalization_laws(s: SelectionRange, row: u16, col: u16)
    ensures
        ({
            let n = spec_normalized(s);
            &&& cell_le(n.start_row, n.start_col, n.end_row, n.end_col)
            &&& spec_normalized(n) == n
            &&& (n == s || n == SelectionRange {
                start_row: s.end_row,
                start_col: s.end_col,
                end_row: s.start_row,
                end_col: s.start_col,
            })
        }),
        selection_contains(s, row, col) == selection_contains(
            SelectionRange {
                start_row: s.end_row,
                start_col: s.end_col,
                end_row: s.start_row,
                end_col: s.start_col,
            },
            row,
            col,
        ),
{
}

/// A CSI parameter or intermediate byte.
pub open spec fn is_csi_param(b: u8) -> bool {
    0x20 <= b <= 0x3f
}

/// A CSI final byte.
pub open spec fn is_csi_final(b: u8) -> bool {
    0x40 <= b <= 0x7e
}

/// Number of CSI parameter bytes in `d` starting at `j`.
pub open spec fn param_len(d: Seq<u8>, j: int) -> nat
    decreases d.len() - j,
{
    if 0 <= j < d.len() && is_csi_param(d[j]) {
        1 + param_len(d, j + 1)
    } else {
        0
    }
}

/// The final byte as passed on: HVP (`f`) becomes CUP (`H`).
pub open spec fn normalized_final(b: u8) -> u8 {
    if b == 0x66 {
        0x48
    } else {
        b
    }
}

/// Normalising `d` from position `i`: the bytes passed on, and the
/// incomplete escape sequence at the end that is held back (possibly empty).
/// A complete `ESC [ params final` sequence is passed on with an HVP final
/// `f` rewritten to `H`; an `ESC [` followed by a byte that is neither a
/// parameter nor a final byte passes the lone `ESC` on; any other byte passes
/// through unchanged.
pub open spec fn normalize_from(d: Seq<u8>, i: int) -> (Seq<u8>, Seq<u8>)
    decreases d.len() - i, 0int,
{
    if i < 0 || i >= d.len() {
        (Seq::empty(), Seq::empty())
    } else if d[i] != 0x1b {
        let r = normalize_from(d, i + 1);
        (seq![d[i]] + r.0, r.1)
    } else if i + 1 >= d.len() {
        (Seq::empty(), d.skip(i))
    } else if d[i + 1] != 0x5b {
        let r = normalize_from(d, i + 2);
        (d.subrange(i, i + 2) + r.0, r.1)
    } else {
        let j = i + 2 + param_len(d, i + 2);
        if j >= d.len() {
            (Seq::empty(), d.skip(i))
        } else if is_csi_final(d[j]) {
            let r = normalize_from(d, j + 1);
            (d.subrange(i, j).push(normalized_final(d[j])) + r.0, r.1)
        } else {
            let r = normalize_from(d, i + 1);
            (seq![0x1bu8] + r.0, r.1)
        }
    }
}

/// Normalising `chunk` after the bytes `pending` held back from the
/// previous chunk: what is passed on and what is held back now.
pub open spec fn normalize_input(pending: Seq<u8>, chunk: Seq<u8>) -> (Seq<u8>, Seq<u8>) {
    normalize_from(pending + chunk, 0)
}

proof fn lemma_param_len_step(d: Seq<u8>, j: int)
    requires
        0 <= j < d.len(),
        is_csi_param(d[j]),
    ensures
        param_len(d, j) == 1 + param_len(d, j + 1),
{
}

/// End of the run of CSI parameter bytes starting at `from`.
fn param_end(data: &Vec<u8>, from: usize) -> (j: usize)
    requires
        from <= data.len(),
    ensures
        j == from + param_len(data@, from as int),
        j <= data.len(),
{
    let mut j = from;
    while j < data.len() && 0x20 <= data[j] && data[j] <= 0x3f
        invariant
            from <= j <= data.len(),
            from + param_len(data@, from as int) == j + param_len(data@, j as int),
        decreases data.len() - j,
    {
        proof {
            lemma_param_len_step(data@, j as int);
        }
        j = j + 1;
    }
    j
}

/// Normalises terminal output before it reaches the emulator: rewrites HVP
/// cursor positioning (`ESC [ row ; col f`) to CUP (`ESC [ row ; col H`),
/// and holds an escape sequence that is cut off at the end of the chunk in
/// `pending` so that it is completed by the next chunk.
pub fn normalize_terminal_input(chunk: &[u8], pending: &mut Vec<u8>) -> (out: Vec<u8>)
    ensures
        (out@, final(pending)@) == normalize_input(old(pending)@, chunk@),
{
    let mut data: Vec<u8> = Vec::new();
    let mut k: usize = 0;
    while k < pending.len()
        invariant
            k <= pending.len(),
            pending@ == old(pending)@,
            data@ == old(pending)@.take(k as int),
        decreases pending.len() - k,
    {
        data.push(pending[k]);
        k = k + 1;
        assert(data@ =~= old(pending)@.take(k as int));
    }
    pending.clear();
    let mut k: usize = 0;
    while k < chunk.len()
        invariant
            k <= chunk.len(),
            data@ == old(pending)@ + chunk@.take(k as int),
        decreases chunk.len() - k,
    {
        data.push(chunk[k]);
        k = k + 1;
        assert(data@ =~= old(pending)@ + chunk@.take(k as int));
    }
    assert(chunk@.take(chunk.len() as int) =~= chunk@);
    let ghost d = data@;
    let mut out: Vec<u8> = Vec::new();
    let mut i: usize = 0;
    while i < data.len()
        invariant
            d == data@,
            d == old(pending)@ + chunk@,
            i <= data.len(),
            pending@ == Seq::<u8>::empty(),
            normalize_from(d, 0) == (out@ + normalize_from(d, i as int).0, normalize_from(
                d,
                i as int,
            ).1),
        decreases data.len() - i,
    {
        if data[i] != 0x1b {
            out.push(data[i]);
            i = i + 1;
            assert(out@ + normalize_from(d, i as int).0 =~= out@.drop_last() + (seq![d[i - 1]]
                + normalize_from(d, i as int).0));
            continue;
        }
        if i + 1 >= data.len() {
            pending.push(data[i]);
            assert(pending@ =~= d.skip(i as int));
            assert(out@ + Seq::<u8>::empty() =~= out@);
            return out;
        }
        if data[i + 1] != 0x5b {
            out.push(data[i]);
            out.push(data[i + 1]);
            i = i + 2;
            assert(out@ + normalize_from(d, i as int).0 =~= out@.take(out.len() - 2) + (
            d.subrange(i - 2, i as int) + normalize_from(d, i as int).0));
            continue;
        }
        let start = i;
        let j = param_end(&data, i + 2);
        let invalid = j < data.len() && !(0x40 <= data[j] && data[j] <= 0x7e);
        if invalid {
            out.push(data[i]);
            i = i + 1;
            assert(out@ + normalize_from(d, i as int).0 =~= out@.drop_last() + (seq![0x1bu8]
                + normalize_from(d, i as int).0));
            continue;
        }
        if j >= data.len() {
            let mut k = start;
            let ghost out0 = out@;
            while k < data.len()
                invariant
                    start <= k <= data.len(),
                    d == data@,
                    pending@ == d.subrange(start as int, k as int),
                decreases data.len() - k,
            {
                pending.push(data[k]);
                k = k + 1;
                assert(pending@ =~= d.subrange(start as int, k as int));
            }
            assert(pending@ =~= d.skip(start as int));
            assert(out@ + Seq::<u8>::empty() =~= out@);
            return out;
        }
        let ghost out0 = out@;
        let mut k = start;
        while k < j
            invariant
                start <= k <= j < data.len(),
                d == data@,
                out@ == out0 + d.subrange(start as int, k as int),
            decreases j - k,
        {
            out.push(data[k]);
            k = k + 1;
            assert(out@ =~= out0 + d.subrange(start as int, k as int));
        }
        out.push(
            if data[j] == 0x66 {
                0x48
            } else {
                data[j]
            },
        );
        i = j + 1;
        assert(out@ + normalize_from(d, i as int).0 =~= out0 + (d.subrange(start as int, j as int).push(
            normalized_final(d[j as int]),
        ) + normalize_from(d, i as int).0));
    }
    assert(out@ + Seq::<u8>::empty() =~= out@);
    out
}

/// `d` from `i` on and `e` from `k` on hold the same bytes.
pub open spec fn same_suffix(d: Seq<u8>, i: int, e: Seq<u8>, k: int) -> bool {
    &&& 0 <= i <= d.len()
    &&& 0 <= k <= e.len()
    &&& d.len() - i == e.len() - k
    &&& forall|m: int| 0 <= m < d.len() - i ==> #[trigger] d[i + m] == e[k + m]
}

proof fn lemma_same_suffix_step(d: Seq<u8>, i: int, e: Seq<u8>, k: int, n: int)
    requires
        same_suffix(d, i, e, k),
        0 <= n <= d.len() - i,
    ensures
        same_suffix(d, i + n, e, k + n),
{
    assert forall|m: int| 0 <= m < d.len() - (i + n) implies #[trigger] d[(i + n) + m] == e[(k + n)
        + m] by {
        assert(d[i + (n + m)] == e[k + (n + m)]);
    }
}

/// The parameter run at `i` depends only on the bytes from `i` on.
proof fn lemma_param_len_suffix(d: Seq<u8>, i: int, e: Seq<u8>, k: int)
    requires
        same_suffix(d, i, e, k),
    ensures
        param_len(d, i) == param_len(e, k),
    decreases d.len() - i,
{
    if i < d.len() {
        assert(d[i + 0] == e[k + 0]);
        lemma_same_suffix_step(d, i, e, k, 1);
        lemma_param_len_suffix(d, i + 1, e, k + 1);
    }
}

/// A parameter run that ends inside `a` is unchanged by appending `b`.
proof fn lemma_param_len_append(a: Seq<u8>, b: Seq<u8>, j: int)
    requires
        0 <= j,
        j + param_len(a, j) < a.len(),
    ensures
        param_len(a + b, j) == param_len(a, j),
    decreases a.len() - j,
{
    assert((a + b)[j] == a[j]);
    if is_csi_param(a[j]) {
        lemma_param_len_append(a, b, j + 1);
    }
}

/// Normalising from `i` depends only on the bytes from `i` on.
proof fn lemma_normalize_suffix(d: Seq<u8>, i: int, e: Seq<u8>, k: int)
    requires
        same_suffix(d, i, e, k),
    ensures
        normalize_from(d, i) == normalize_from(e, k),
    decreases d.len() - i,
{
    if i == d.len() {
        return;
    }
    assert(d[i + 0] == e[k + 0]);
    lemma_same_suffix_step(d, i, e, k, 1);
    lemma_normalize_suffix(d, i + 1, e, k + 1);
    if d[i] == 0x1b && i + 1 < d.len() {
        assert(d[i + 1] == e[k + 1]);
        lemma_same_suffix_step(d, i, e, k, 2);
        lemma_normalize_suffix(d, i + 2, e, k + 2);
        assert(d.subrange(i, i + 2) =~= e.subrange(k, k + 2));
        if d[i] == 0x1b && d[i + 1] == 0x5b {
            lemma_param_len_suffix(d, i + 2, e, k + 2);
            let j = i + 2 + param_len(d, i + 2);
            let jj = k + 2 + param_len(e, k + 2);
            if j < d.len() {
                assert(d[i + (j - i)] == e[k + (j - i)]);
                lemma_same_suffix_step(d, i, e, k, j + 1 - i);
                lemma_normalize_suffix(d, j + 1, e, jj + 1);
                assert forall|m: int| 0 <= m < j - i implies #[trigger] d.subrange(i, j)[m] == e.subrange(k, jj)[m] by {
                    assert(d[i + m] == e[k + m]);
                }
                assert(d.subrange(i, j) =~= e.subrange(k, jj));
            } else {
                assert forall|m: int| 0 <= m < d.len() - i implies #[trigger] d.skip(i)[m] == e.skip(k)[m] by {
                    assert(d[i + m] == e[k + m]);
                }
                assert(d.skip(i) =~= e.skip(k));
            }
        }
    }
}

/// Normalising `a + b` from `i` (inside `a`) is normalising `a` from `i` and
/// then normalising what was held back followed by `b`.
proof fn lemma_normalize_append(a: Seq<u8>, b: Seq<u8>, i: int)
    requires
        0 <= i <= a.len(),
    ensures
        ({
            let (o, p) = normalize_from(a, i);
            let x = normalize_from(p + b, 0);
            normalize_from(a + b, i) == (o + x.0, x.1)
        }),
    decreases a.len() - i,
{
    let d = a + b;
    if i == a.len() {
        assert forall|m: int| 0 <= m < d.len() - i implies #[trigger] d[i + m] == (Seq::<u8>::empty() + b)[0 + m] by {}
        lemma_normalize_suffix(d, i, Seq::<u8>::empty() + b, 0);
        assert(Seq::<u8>::empty() + normalize_from(Seq::<u8>::empty() + b, 0).0 =~= normalize_from(
            Seq::<u8>::empty() + b,
            0,
        ).0);
        return;
    }
    assert(d[i] == a[i]);
    if a[i] != 0x1b {
        lemma_normalize_append(a, b, i + 1);
        let r = normalize_from(a, i + 1);
        let x = normalize_from(r.1 + b, 0);
        assert(seq![a[i]] + (r.0 + x.0) =~= (seq![a[i]] + r.0) + x.0);
        return;
    }
    let stop_here = a.skip(i) + b;
    assert forall|m: int| 0 <= m < d.len() - i implies #[trigger] d[i + m] == stop_here[0 + m] by {
        if i + m < a.len() {
            assert(stop_here[m] == a.skip(i)[m]);
        }
    }
    if i + 1 >= a.len() {
        lemma_normalize_suffix(d, i, stop_here, 0);
        assert(Seq::<u8>::empty() + normalize_from(stop_here, 0).0 =~= normalize_from(
            stop_here,
            0,
        ).0);
        return;
    }
    assert(d[i + 1] == a[i + 1]);
    if a[i + 1] != 0x5b {
        lemma_normalize_append(a, b, i + 2);
        let r = normalize_from(a, i + 2);
        let x = normalize_from(r.1 + b, 0);
        assert(a.subrange(i, i + 2) =~= d.subrange(i, i + 2));
        assert(a.subrange(i, i + 2) + (r.0 + x.0) =~= (a.subrange(i, i + 2) + r.0) + x.0);
        return;
    }
    let j = i + 2 + param_len(a, i + 2);
    if j >= a.len() {
        lemma_normalize_suffix(d, i, stop_here, 0);
        assert(Seq::<u8>::empty() + normalize_from(stop_here, 0).0 =~= normalize_from(
            stop_here,
            0,
        ).0);
        return;
    }
    lemma_param_len_append(a, b, i + 2);
    assert(d[j] == a[j]);
    if is_csi_final(a[j]) {
        lemma_normalize_append(a, b, j + 1);
        let r = normalize_from(a, j + 1);
        let x = normalize_from(r.1 + b, 0);
        let head = a.subrange(i, j).push(normalized_final(a[j]));
        assert(d.subrange(i, j) =~= a.subrange(i, j));
        assert(head + (r.0 + x.0) =~= (head + r.0) + x.0);
    } else {
        lemma_normalize_append(a, b, i + 1);
        let r = normalize_from(a, i + 1);
        let x = normalize_from(r.1 + b, 0);
        assert(seq![0x1bu8] + (r.0 + x.0) =~= (seq![0x1bu8] + r.0) + x.0);
    }
}

proof fn lemma_param_run(d: Seq<u8>, j: int, m: int)
    requires
        0 <= j <= m < j + param_len(d, j),
    ensures
        m < d.len(),
        is_csi_param(d[m]),
    decreases m - j,
{
    if m > j {
        lemma_param_run(d, j + 1, m);
    }
}

/// The bytes held back at the end of the data: an `ESC`, alone or followed
/// by `[` and parameter bytes only.
pub open spec fn unfinished_escape(p: Seq<u8>) -> bool {
    p.len() > 0 ==> p[0] == 0x1b && (p.len() == 1 || (p[1] == 0x5b && forall|k: int|
        2 <= k < p.len() ==> is_csi_param(#[trigger] p[k])))
}

/// Whether `d[j]` is the last byte of an `ESC [ params` run: some `ESC [`
/// before it is followed by parameter bytes only, up to `j`.
pub open spec fn ends_csi(d: Seq<u8>, j: int) -> bool {
    exists|s: int|
        0 <= s && s + 2 <= j && #[trigger] d[s] == 0x1b && d[s + 1] == 0x5b && forall|m: int|
            s + 2 <= m < j ==> is_csi_param(#[trigger] d[m])
}

/// Normalising loses, adds and moves no byte: what is passed on followed
/// by what is held back is the data itself, except that `f` bytes that end
/// an `ESC [ params` run become `H`; where the data starts with a complete
/// `ESC [ params f` sequence, its `f` does become `H`; and what is held back
/// is the tail of the data from an unfinished escape sequence.
pub proof fn normalize_keeps_every_byte(d: Seq<u8>, i: int)
    requires
        0 <= i <= d.len(),
    ensures
        normalize_from(d, i).0.len() + normalize_from(d, i).1.len() == d.len() - i,
        forall|k: int|
            0 <= k < normalize_from(d, i).0.len() ==> #[trigger] normalize_from(d, i).0[k] == d[i + k] || (d[i
                + k] == 0x66 && normalize_from(d, i).0[k] == 0x48 && ends_csi(d, i + k)),
        ({
            let j = i + 2 + param_len(d, i + 2);
            i + 1 < d.len() && d[i] == 0x1b && d[i + 1] == 0x5b && j < d.len() && d[j] == 0x66 ==> normalize_from(
                d,
                i,
            ).0[j - i] == 0x48
        }),
        normalize_from(d, i).1 == d.skip(d.len() - normalize_from(d, i).1.len()),
        unfinished_escape(normalize_from(d, i).1),
    decreases d.len() - i,
{
    let (o, p) = normalize_from(d, i);
    if i >= d.len() {
    } else if d[i] != 0x1b {
        normalize_keeps_every_byte(d, i + 1);
        let r = normalize_from(d, i + 1);
        assert forall|k: int| 0 <= k < o.len() implies #[trigger] o[k] == d[i + k] || (d[i + k] == 0x66 && o[k]
            == 0x48 && ends_csi(d, i + k)) by {
            if k > 0 {
                assert(o[k] == r.0[k - 1]);
            }
        }
    } else if i + 1 >= d.len() {
    } else if d[i + 1] != 0x5b {
        normalize_keeps_every_byte(d, i + 2);
        let r = normalize_from(d, i + 2);
        assert forall|k: int| 0 <= k < o.len() implies #[trigger] o[k] == d[i + k] || (d[i + k] == 0x66 && o[k]
            == 0x48 && ends_csi(d, i + k)) by {
            if k >= 2 {
                assert(o[k] == r.0[k - 2]);
            }
        }
    } else {
        let j = i + 2 + param_len(d, i + 2);
        if j >= d.len() {
            assert forall|k: int| 2 <= k < p.len() implies is_csi_param(#[trigger] p[k]) by {
                lemma_param_run(d, i + 2, i + k);
            }
        } else if is_csi_final(d[j]) {
            normalize_keeps_every_byte(d, j + 1);
            let r = normalize_from(d, j + 1);
            let head = d.subrange(i, j).push(normalized_final(d[j]));
            assert forall|k: int| 0 <= k < o.len() implies #[trigger] o[k] == d[i + k] || (d[i + k] == 0x66 && o[k]
                == 0x48 && ends_csi(d, i + k)) by {
                if k < head.len() {
                    assert(o[k] == head[k]);
                    if k == head.len() - 1 && d[j] == 0x66 {
                        assert forall|m: int| i + 2 <= m < j implies is_csi_param(#[trigger] d[m]) by {
                            lemma_param_run(d, i + 2, m);
                        }
                        assert(d[i] == 0x1b);
                        assert(ends_csi(d, j));
                    }
                } else {
                    assert(o[k] == r.0[k - head.len()]);
                }
            }
        } else {
            normalize_keeps_every_byte(d, i + 1);
            let r = normalize_from(d, i + 1);
            assert forall|k: int| 0 <= k < o.len() implies #[trigger] o[k] == d[i + k] || (d[i + k] == 0x66 && o[k]
                == 0x48 && ends_csi(d, i + k)) by {
                if k > 0 {
                    assert(o[k] == r.0[k - 1]);
                }
            }
        }
    }
}

/// Feeding the terminal output in two chunks passes on the same bytes, and
/// holds back the same bytes, as feeding it in one: an escape sequence cut
/// between chunks is completed by the next chunk.
pub proof fn normalize_chunking_is_transparent(pending: Seq<u8>, c1: Seq<u8>, c2: Seq<u8>)
    ensures
        ({
            let (o1, p1) = normalize_input(pending, c1);
            let (o2, p2) = normalize_input(p1, c2);
            normalize_input(pending, c1 + c2) == (o1 + o2, p2)
        }),
{
    lemma_normalize_append(pending + c1, c2, 0);
    assert(pending + c1 + c2 =~= pending + (c1 + c2));
}

/// The characters that `String::from_utf8_lossy` yields for `bytes`.
pub uninterp spec fn utf8_lossy(bytes: Seq<u8>) -> Seq<char>;

/// `String::from_utf8_lossy` (std): decodes UTF-8, replacing invalid
/// sequences with U+FFFD. The contract names the result and states what the
/// documentation gives for valid input: the decoded text; which replacements
/// invalid input gets is left to the name.
#[verifier::external_body]
pub(crate) fn lossy_chars(bytes: &[u8]) -> (v: Vec<char>)
    ensures
        v@ == utf8_lossy(bytes@),
        valid_utf8(bytes@) ==> v@ == decode_utf8(bytes@),
{
    String::from_utf8_lossy(bytes).chars().collect()
}

/// The standard base64 alphabet.
pub open spec fn base64_digit(v: nat) -> char {
    if v < 26 {
        (v + 65) as char
    } else if v < 52 {
        (v - 26 + 97) as char
    } else if v < 62 {
        (v - 52 + 48) as char
    } else if v == 62 {
        '+'
    } else {
        '/'
    }
}

/// Standard base64 (RFC 4648) with `=` padding.
pub open spec fn base64_text(bytes: Seq<u8>) -> Seq<char>
    decreases bytes.len(),
{
    if bytes.len() == 0 {
        Seq::empty()
    } else if bytes.len() == 1 {
        let b0 = bytes[0] as nat;
        seq![base64_digit(b0 / 4), base64_digit((b0 % 4) * 16), '=', '=']
    } else if bytes.len() == 2 {
        let b0 = bytes[0] as nat;
        let b1 = bytes[1] as nat;
        seq![
            base64_digit(b0 / 4),
            base64_digit((b0 % 4) * 16 + b1 / 16),
            base64_digit((b1 % 16) * 4),
            '=',
        ]
    } else {
        let b0 = bytes[0] as nat;
        let b1 = bytes[1] as nat;
        let b2 = bytes[2] as nat;
        seq![
            base64_digit(b0 / 4),
            base64_digit((b0 % 4) * 16 + b1 / 16),
            base64_digit((b1 % 16) * 4 + b2 / 64),
            base64_digit(b2 % 64),
        ] + base64_text(bytes.skip(3))
    }
}

/// `base64::engine::general_purpose::STANDARD.encode`: standard alphabet with
/// padding, as the crate documents.
#[verifier::external_body]
fn base64_encode(bytes: &[u8]) -> (s: String)
    requires
        bytes@.len() <= MAX_OSC52_RESPONSE_BYTES,
    ensures
        s@ == base64_text(bytes@),
{
    BASE64_STANDARD.encode(bytes)
}

/// What `STANDARD.decode` gives for `data`: the decoded bytes, or `None` for
/// input it rejects (bad symbols, bad padding, non-canonical trailing bits).
pub uninterp spec fn base64_decoded(data: Seq<u8>) -> Option<Seq<u8>>;

/// The ASCII bytes of the standard padded base64 text of `bytes`.
pub open spec fn base64_bytes(bytes: Seq<u8>) -> Seq<u8> {
    base64_text(bytes).map_values(|c: char| c as u8)
}

/// `base64::engine::general_purpose::STANDARD.decode`; the result is named.
/// `STANDARD` requires canonical padding and no trailing bits and skips
/// nothing, so it accepts exactly the canonical encodings: what it decodes
/// encodes back to `data`, and it refuses data that is no byte string's
/// encoding.
#[verifier::external_body]
fn base64_decode(data: &[u8]) -> (r: Option<Vec<u8>>)
    requires
        data@.len() <= MAX_OSC52_BASE64_BYTES,
    ensures
        match r {
            Some(v) => base64_decoded(data@) == Some(v@),
            None => base64_decoded(data@) is None,
        },
        r matches Some(v) ==> base64_bytes(v@) == data@,
        r is None ==> forall|b: Seq<u8>| #[trigger] base64_bytes(b) != data@,
{
    BASE64_STANDARD.decode(data).ok()
}

/// `s` without its control characters.
pub open spec fn without_controls(s: Seq<char>) -> Seq<char>
    decreases s.len(),
{
    if s.len() == 0 {
        s
    } else if is_control_char(s.last()) {
        without_controls(s.drop_last())
    } else {
        without_controls(s.drop_last()).push(s.last())
    }
}

/// The title kept from the raw bytes of an OSC 0/1/2 sequence: decoded
/// (lossily), control characters removed, cut to 120 characters, trimmed;
/// `None` when nothing is left.
pub open spec fn spec_sanitized_title(raw: Seq<u8>) -> Option<Seq<char>> {
    let kept = without_controls(utf8_lossy(raw));
    let cut = if kept.len() > MAX_WINDOW_TITLE_CHARS {
        kept.take(MAX_WINDOW_TITLE_CHARS as int)
    } else {
        kept
    };
    let t = trim(cut);
    if t.len() > 0 {
        Some(t)
    } else {
        None
    }
}

pub open spec fn opt_string_view(o: Option<String>) -> Option<Seq<char>> {
    match o {
        Some(s) => Some(s@),
        None => None,
    }
}

pub open spec fn opt_str_view(o: Option<&str>) -> Option<Seq<char>> {
    match o {
        Some(s) => Some(s@),
        None => None,
    }
}

pub open spec fn opt_bytes_view(o: Option<Vec<u8>>) -> Option<Seq<u8>> {
    match o {
        Some(v) => Some(v@),
        None => None,
    }
}

/// Turns the raw bytes of an OSC title into a displayable title.
pub fn sanitize_window_title(raw: &[u8]) -> (r: Option<String>)
    ensures
        opt_string_view(r) == spec_sanitized_title(raw@),
{
    let chars = lossy_chars(raw);
    let mut kept: Vec<char> = Vec::new();
    let mut i: usize = 0;
    while i < chars.len()
        invariant
            i <= chars.len(),
            kept@ == without_controls(chars@.take(i as int)),
        decreases chars.len() - i,
    {
        assert(chars@.take(i + 1).drop_last() =~= chars@.take(i as int));
        if !control_char(chars[i]) {
            kept.push(chars[i]);
        }
        i = i + 1;
    }
    assert(chars@.take(chars.len() as int) =~= chars@);
    if kept.len() > MAX_WINDOW_TITLE_CHARS {
        kept.truncate(MAX_WINDOW_TITLE_CHARS);
    }
    let n = kept.len();
    let a = skip_white_space(&kept, 0, n);
    let b = skip_white_space_back(&kept, a, n);
    assert(kept@.subrange(0, n as int) =~= kept@);
    if a == b {
        return None;
    }
    let mut t: Vec<char> = Vec::new();
    let mut k = a;
    while k < b
        invariant
            a <= k <= b <= kept.len(),
            t@ == kept@.subrange(a as int, k as int),
        decreases b - k,
    {
        t.push(kept[k]);
        k = k + 1;
        assert(t@ =~= kept@.subrange(a as int, k as int));
    }
    Some(string_of(&t))
}

/// Whether an OSC 52 selector names the system clipboard (`c`, or the
/// default empty selector).
pub fn selector_targets_system_clipboard(selector: &[u8]) -> (b: bool)
    ensures
        b == (selector@.len() == 0 || selector@.contains(0x63u8)),
{
    if selector.len() == 0 {
        return true;
    }
    let mut i: usize = 0;
    while i < selector.len()
        invariant
            i <= selector.len(),
            forall|k: int| 0 <= k < i ==> selector@[k] != 0x63u8,
        decreases selector.len() - i,
    {
        if selector[i] == 0x63 {
            return true;
        }
        i = i + 1;
    }
    false
}

/// The selector an OSC 52 paste response names: the request's, or `c` for
/// the default selector.
pub fn response_selector(selector: &[u8]) -> (r: Vec<u8>)
    ensures
        r@ == (if selector@.len() == 0 {
            seq![0x63u8]
        } else {
            selector@
        }),
{
    if selector.len() == 0 {
        let mut r = Vec::new();
        r.push(0x63u8);
        assert(r@ =~= seq![0x63u8]);
        r
    } else {
        slice_to_vec(selector)
    }
}

/// The last character boundary at or before `e`.
pub open spec fn boundary_at_or_before(bytes: Seq<u8>, e: int) -> int
    decreases e,
{
    if e <= 0 || is_char_boundary(bytes, e) {
        if e <= 0 {
            0
        } else {
            e
        }
    } else {
        boundary_at_or_before(bytes, e - 1)
    }
}

/// How many bytes of `bytes` (a UTF-8 text) are kept when cutting it to at
/// most `max` bytes without splitting a character.
pub open spec fn utf8_cut(bytes: Seq<u8>, max: nat) -> int {
    if bytes.len() <= max {
        bytes.len() as int
    } else {
        boundary_at_or_before(bytes, max as int)
    }
}

proof fn lemma_boundary_is_last(bytes: Seq<u8>, e: int)
    ensures
        boundary_at_or_before(bytes, e) <= if e < 0 { 0 } else { e },
        e > 0 ==> boundary_at_or_before(bytes, e) == 0 || is_char_boundary(
            bytes,
            boundary_at_or_before(bytes, e),
        ),
        forall|k: int|
            boundary_at_or_before(bytes, e) < k <= e ==> !#[trigger] is_char_boundary(bytes, k),
    decreases e,
{
    if e > 0 && !is_char_boundary(bytes, e) {
        lemma_boundary_is_last(bytes, e - 1);
    }
}

/// Cutting keeps the longest prefix that fits: the cut is at most
/// `max` bytes long and ends on a character boundary, and every longer
/// prefix that ends on a character boundary (or is the whole text) is
/// longer than `max`.
pub proof fn utf8_cut_is_longest(bytes: Seq<u8>, max: nat)
    ensures
        0 <= utf8_cut(bytes, max) <= bytes.len(),
        utf8_cut(bytes, max) <= max,
        utf8_cut(bytes, max) == 0 || utf8_cut(bytes, max) == bytes.len() || is_char_boundary(
            bytes,
            utf8_cut(bytes, max),
        ),
        forall|k: int|
            utf8_cut(bytes, max) < k <= bytes.len() && (k == bytes.len() || #[trigger] is_char_boundary(bytes, k))
                ==> k > max,
{
    if bytes.len() > max {
        lemma_boundary_is_last(bytes, max as int);
        lemma_boundary_bound(bytes, max as int);
    }
}

/// The longest prefix of `text` whose UTF-8 encoding has at most
/// `max_bytes` bytes.
pub fn truncate_utf8_bytes(text: &str, max_bytes: usize) -> (r: &str)
    ensures
        r.spec_bytes() == text.spec_bytes().take(utf8_cut(text.spec_bytes(), max_bytes as nat)),
{
    proof {
        encode_utf8_valid_utf8(text@);
    }
    let all = text.as_bytes();
    if all.len() <= max_bytes {
        assert(text.spec_bytes().take(text.spec_bytes().len() as int) =~= text.spec_bytes());
        return text;
    }
    let mut end = max_bytes;
    while !text.is_char_boundary(end)
        invariant
            end <= max_bytes < text.spec_bytes().len(),
            valid_utf8(text.spec_bytes()),
            boundary_at_or_before(text.spec_bytes(), end as int) == boundary_at_or_before(
                text.spec_bytes(),
                max_bytes as int,
            ),
        decreases end,
    {
        end = if end > 0 {
            end - 1
        } else {
            0
        };
    }
    let (head, _tail) = text.split_at(end);
    assert(head.spec_bytes() =~= text.spec_bytes().take(end as int));
    head
}

/// The OSC 52 response carrying clipboard text back to a child program:
/// `ESC ] 52 ; selector ; base64(text) BEL`, with the text cut to at most
/// 1 MiB at a character boundary.
pub open spec fn spec_osc52_response(selector: Seq<u8>, text: Seq<char>) -> Seq<u8> {
    let bytes = encode_utf8(text);
    let kept = bytes.take(utf8_cut(bytes, MAX_OSC52_RESPONSE_BYTES as nat));
    seq![0x1bu8, 0x5du8, 0x35u8, 0x32u8, 0x3bu8] + encode_utf8(utf8_lossy(selector)) + seq![0x3bu8]
        + encode_utf8(base64_text(kept)) + seq![0x07u8]
}

fn append_bytes(dst: &mut Vec<u8>, src: &[u8])
    ensures
        final(dst)@ == old(dst)@ + src@,
{
    let ghost start = dst@;
    let mut i: usize = 0;
    while i < src.len()
        invariant
            i <= src.len(),
            dst@ == start + src@.take(i as int),
        decreases src.len() - i,
    {
        dst.push(src[i]);
        i = i + 1;
        assert(dst@ =~= start + src@.take(i as int));
    }
    assert(src@.take(src@.len() as int) =~= src@);
}

/// Builds the OSC 52 paste response for `selector` carrying `text`.
pub fn osc52_clipboard_response(selector: &[u8], text: &str) -> (r: Vec<u8>)
    ensures
        r@ == spec_osc52_response(selector@, text@),
{
    let kept = truncate_utf8_bytes(text, MAX_OSC52_RESPONSE_BYTES);
    let kept_bytes = kept.as_bytes();
    proof {
        let bytes = encode_utf8(text@);
        assert(kept_bytes@.len() <= MAX_OSC52_RESPONSE_BYTES) by {
            if bytes.len() > MAX_OSC52_RESPONSE_BYTES {
                lemma_boundary_bound(bytes, MAX_OSC52_RESPONSE_BYTES as int);
            }
        }
    }
    let encoded = base64_encode(kept_bytes);
    let selector_text = string_of(&lossy_chars(selector));
    let mut out: Vec<u8> = Vec::new();
    out.push(0x1b);
    out.push(0x5d);
    out.push(0x35);
    out.push(0x32);
    out.push(0x3b);
    append_bytes(&mut out, selector_text.as_str().as_bytes());
    out.push(0x3b);
    append_bytes(&mut out, encoded.as_str().as_bytes());
    out.push(0x07);
    assert(out@ =~= spec_osc52_response(selector@, text@));
    out
}

/// What a paste sends to the program in the terminal: the text's UTF-8
/// bytes, between `ESC [ 200 ~` and `ESC [ 201 ~` when the program asked for
/// bracketed paste.
pub open spec fn spec_paste_bytes(text: Seq<char>, bracketed: bool) -> Seq<u8> {
    if bracketed {
        seq![0x1bu8, 0x5bu8, 0x32u8, 0x30u8, 0x30u8, 0x7eu8] + encode_utf8(text) + seq![
            0x1bu8,
            0x5bu8,
            0x32u8,
            0x30u8,
            0x31u8,
            0x7eu8,
        ]
    } else {
        encode_utf8(text)
    }
}

/// The bytes that pasting `text` writes to the terminal's input.
pub fn paste_bytes(text: &str, bracketed: bool) -> (r: Vec<u8>)
    ensures
        r@ == spec_paste_bytes(text@, bracketed),
{
    let mut out: Vec<u8> = Vec::new();
    if bracketed {
        out.push(0x1b);
        out.push(0x5b);
        out.push(0x32);
        out.push(0x30);
        out.push(0x30);
        out.push(0x7e);
    }
    append_bytes(&mut out, text.as_bytes());
    if bracketed {
        out.push(0x1b);
        out.push(0x5b);
        out.push(0x32);
        out.push(0x30);
        out.push(0x31);
        out.push(0x7e);
    }
    assert(out@ =~= spec_paste_bytes(text@, bracketed));
    out
}

/// The rows of history in view after scrolling `lines` from `current`:
/// zero lines goes back to the live bottom, a million or more to the top
/// of history, others move that many rows up (positive) or down, stopping
/// at the bottom and at the largest count.
pub open spec fn spec_scroll_target(current: usize, lines: i32) -> usize {
    if lines == 0 {
        0
    } else if lines >= 1_000_000 {
        usize::MAX
    } else if lines > 0 {
        if current + lines > usize::MAX {
            usize::MAX
        } else {
            (current + lines) as usize
        }
    } else if current + lines < 0 {
        0
    } else {
        (current + lines) as usize
    }
}

/// Where scrolling `lines` from `current` rows of history leads.
pub fn scroll_target(current: usize, lines: i32) -> (r: usize)
    ensures
        r == spec_scroll_target(current, lines),
{
    if lines == 0 {
        0
    } else if lines >= 1_000_000 {
        usize::MAX
    } else if lines > 0 {
        current.saturating_add(lines as usize)
    } else {
        let back = (0i64 - lines as i64) as usize;
        current.saturating_sub(back)
    }
}

proof fn lemma_boundary_bound(bytes: Seq<u8>, e: int)
    ensures
        0 <= boundary_at_or_before(bytes, e),
        boundary_at_or_before(bytes, e) <= if e < 0 {
            0
        } else {
            e
        },
    decreases e,
{
    if e > 0 && !is_char_boundary(bytes, e) {
        lemma_boundary_bound(bytes, e - 1);
    }
}

/// What an OSC title or clipboard sequence leaves for the UI: the window
/// title and icon name, and the clipboard copy or paste request not yet
/// handled.
#[derive(Debug)]
pub struct TerminalCallbacks {
    pub window_icon_name: Option<String>,
    pub window_title: Option<String>,
    pub pending_clipboard_copy: Option<String>,
    pub pending_clipboard_paste: Option<Vec<u8>>,
}

impl TerminalCallbacks {
    /// No title and no pending request.
    pub fn new() -> (r: Self)
        ensures
            r.window_icon_name is None,
            r.window_title is None,
            r.pending_clipboard_copy is None,
            r.pending_clipboard_paste is None,
    {
        TerminalCallbacks {
            window_icon_name: None,
            window_title: None,
            pending_clipboard_copy: None,
            pending_clipboard_paste: None,
        }
    }

    /// The window title, or else the icon name.
    pub fn title(&self) -> (r: Option<&str>)
        ensures
            opt_str_view(r) == match self.window_title {
                Some(t) => Some(t@),
                None => opt_string_view(self.window_icon_name),
            },
    {
        match &self.window_title {
            Some(t) => Some(t.as_str()),
            None => match &self.window_icon_name {
                Some(i) => Some(i.as_str()),
                None => None,
            },
        }
    }

    /// Hands out the pending clipboard copy, leaving none.
    pub fn take_clipboard_copy(&mut self) -> (r: Option<String>)
        ensures
            r == old(self).pending_clipboard_copy,
            final(self).pending_clipboard_copy is None,
            final(self).window_title == old(self).window_title,
            final(self).window_icon_name == old(self).window_icon_name,
            final(self).pending_clipboard_paste == old(self).pending_clipboard_paste,
    {
        self.pending_clipboard_copy.take()
    }

    /// Hands out the pending clipboard paste request, leaving none.
    pub fn take_clipboard_paste(&mut self) -> (r: Option<Vec<u8>>)
        ensures
            r == old(self).pending_clipboard_paste,
            final(self).pending_clipboard_paste is None,
            final(self).window_title == old(self).window_title,
            final(self).window_icon_name == old(self).window_icon_name,
            final(self).pending_clipboard_copy == old(self).pending_clipboard_copy,
    {
        self.pending_clipboard_paste.take()
    }

    /// OSC 1: sets the icon name from the raw title bytes.
    pub fn set_window_icon_name(&mut self, icon_name: &[u8])
        ensures
            opt_string_view(final(self).window_icon_name) == spec_sanitized_title(icon_name@),
            final(self).window_title == old(self).window_title,
            final(self).pending_clipboard_copy == old(self).pending_clipboard_copy,
            final(self).pending_clipboard_paste == old(self).pending_clipboard_paste,
    {
        self.window_icon_name = sanitize_window_title(icon_name);
    }

    /// OSC 2: sets the window title from the raw title bytes.
    pub fn set_window_title(&mut self, title: &[u8])
        ensures
            opt_string_view(final(self).window_title) == spec_sanitized_title(title@),
            final(self).window_icon_name == old(self).window_icon_name,
            final(self).pending_clipboard_copy == old(self).pending_clipboard_copy,
            final(self).pending_clipboard_paste == old(self).pending_clipboard_paste,
    {
        self.window_title = sanitize_window_title(title);
    }

    /// OSC 52 copy: a request for the system clipboard whose base64 payload
    /// is at most 1 MiB and decodes to non-empty text becomes the pending
    /// copy; anything else is ignored.
    pub fn copy_to_clipboard(&mut self, selector: &[u8], data: &[u8])
        ensures
            ({
                let accepted = (selector@.len() == 0 || selector@.contains(0x63u8)) && data@.len()
                    <= MAX_OSC52_BASE64_BYTES && base64_decoded(data@) is Some && utf8_lossy(
                    base64_decoded(data@)->0,
                ).len() > 0;
                if accepted {
                    opt_string_view(final(self).pending_clipboard_copy) == Some(
                        utf8_lossy(base64_decoded(data@)->0),
                    )
                } else {
                    final(self).pending_clipboard_copy == old(self).pending_clipboard_copy
                }
            }),
            final(self).window_title == old(self).window_title,
            final(self).window_icon_name == old(self).window_icon_name,
            final(self).pending_clipboard_paste == old(self).pending_clipboard_paste,
    {
        if !selector_targets_system_clipboard(selector) || data.len() > MAX_OSC52_BASE64_BYTES {
            return;
        }
        let decoded = match base64_decode(data) {
            Some(d) => d,
            None => {
                return;
            },
        };
        let text = lossy_chars(decoded.as_slice());
        if text.len() > 0 {
            self.pending_clipboard_copy = Some(string_of(&text));
        }
    }

    /// OSC 52 paste query: a query for the system clipboard becomes the
    /// pending paste request, remembering the selector to answer with.
    pub fn paste_from_clipboard(&mut self, selector: &[u8])
        ensures
            if selector@.len() == 0 || selector@.contains(0x63u8) {
                opt_bytes_view(final(self).pending_clipboard_paste) == Some(
                    if selector@.len() == 0 {
                        seq![0x63u8]
                    } else {
                        selector@
                    },
                )
            } else {
                final(self).pending_clipboard_paste == old(self).pending_clipboard_paste
            },
            final(self).window_title == old(self).window_title,
            final(self).window_icon_name == old(self).window_icon_name,
            final(self).pending_clipboard_copy == old(self).pending_clipboard_copy,
    {
        if selector_targets_system_clipboard(selector) {
            self.pending_clipboard_paste = Some(response_selector(selector));
        }
    }
}

/// The control byte that Ctrl plus `c` sends (letters in either case map to
/// 1..=26; the punctuation and digit aliases follow xterm).
pub open spec fn spec_ctrl_byte(c: char) -> Option<u8> {
    if 'a' <= c && c <= 'z' {
        Some((c as u32 - 96) as u8)
    } else if 'A' <= c && c <= 'Z' {
        Some((c as u32 - 64) as u8)
    } else if c == ' ' || c == '@' || c == '2' {
        Some(0x00)
    } else if c == '[' || c == '3' {
        Some(0x1b)
    } else if c == '\\' || c == '4' {
        Some(0x1c)
    } else if c == ']' || c == '5' {
        Some(0x1d)
    } else if c == '^' || c == '6' {
        Some(0x1e)
    } else if c == '_' || c == '/' || c == '-' || c == '7' {
        Some(0x1f)
    } else if c == '?' || c == '8' {
        Some(0x7f)
    } else {
        None
    }
}

/// The xterm modifier parameter (`1 + shift + 2·alt + 4·ctrl`), absent when
/// no such modifier is held.
pub open spec fn spec_modifier_code(m: u8) -> Option<u8> {
    let code = 1 + (if has_mod(m, MOD_SHIFT) {
        1int
    } else {
        0
    }) + (if has_mod(m, MOD_ALT) {
        2int
    } else {
        0
    }) + (if has_mod(m, MOD_CONTROL) {
        4int
    } else {
        0
    });
    if code != 1 {
        Some(code as u8)
    } else {
        None
    }
}

pub open spec fn spec_with_alt(bytes: Seq<u8>, alt: bool) -> Seq<u8> {
    if alt {
        seq![0x1bu8] + bytes
    } else {
        bytes
    }
}

/// `ESC [ 1 ; code final` with modifiers, `ESC [ final` without.
pub open spec fn spec_csi_arrow(final_byte: u8, m: u8) -> Seq<u8> {
    match spec_modifier_code(m) {
        Some(code) => seq![0x1bu8, 0x5bu8, 0x31u8, 0x3bu8] + dec_bytes(code as nat) + seq![final_byte],
        None => seq![0x1bu8, 0x5bu8, final_byte],
    }
}

/// Arrow keys: SS3 form (`ESC O final`) in application cursor mode.
pub open spec fn spec_cursor_key(final_byte: u8, m: u8, application_cursor: bool) -> Seq<u8> {
    if spec_modifier_code(m) is Some {
        spec_csi_arrow(final_byte, m)
    } else if application_cursor {
        seq![0x1bu8, 0x4fu8, final_byte]
    } else {
        seq![0x1bu8, 0x5bu8, final_byte]
    }
}

/// Home/End and F1–F4: `ESC [ 1 ; code final` with modifiers, `ESC O final`
/// without.
pub open spec fn spec_ss3_key(final_byte: u8, m: u8) -> Seq<u8> {
    match spec_modifier_code(m) {
        Some(code) => seq![0x1bu8, 0x5bu8, 0x31u8, 0x3bu8] + dec_bytes(code as nat) + seq![final_byte],
        None => seq![0x1bu8, 0x4fu8, final_byte],
    }
}

/// `ESC [ number ; code ~` with modifiers, `ESC [ number ~` without.
pub open spec fn spec_csi_tilde(number: u8, m: u8) -> Seq<u8> {
    match spec_modifier_code(m) {
        Some(code) => seq![0x1bu8, 0x5bu8] + dec_bytes(number as nat) + seq![0x3bu8] + dec_bytes(
            code as nat,
        ) + seq![0x7eu8],
        None => seq![0x1bu8, 0x5bu8] + dec_bytes(number as nat) + seq![0x7eu8],
    }
}

/// Function keys F1–F12; other numbers send nothing.
pub open spec fn spec_function_key(n: u8, m: u8) -> Option<Seq<u8>> {
    if n == 1 {
        Some(spec_ss3_key(0x50, m))
    } else if n == 2 {
        Some(spec_ss3_key(0x51, m))
    } else if n == 3 {
        Some(spec_ss3_key(0x52, m))
    } else if n == 4 {
        Some(spec_ss3_key(0x53, m))
    } else if n == 5 {
        Some(spec_csi_tilde(15, m))
    } else if n == 6 {
        Some(spec_csi_tilde(17, m))
    } else if n == 7 {
        Some(spec_csi_tilde(18, m))
    } else if n == 8 {
        Some(spec_csi_tilde(19, m))
    } else if n == 9 {
        Some(spec_csi_tilde(20, m))
    } else if n == 10 {
        Some(spec_csi_tilde(21, m))
    } else if n == 11 {
        Some(spec_csi_tilde(23, m))
    } else if n == 12 {
        Some(spec_csi_tilde(24, m))
    } else {
        None
    }
}

/// The bytes a key sends to the child program (xterm conventions).
pub open spec fn spec_key_bytes(key: KeyInput, application_cursor: bool) -> Option<Seq<u8>> {
    let m = key.modifiers;
    let alt = has_mod(m, MOD_ALT);
    if has_mod(m, MOD_CONTROL) && key.code is Char {
        match spec_ctrl_byte(key.code->Char_0) {
            Some(b) => Some(spec_with_alt(seq![b], alt)),
            None => None,
        }
    } else {
        match key.code {
            KeyInputCode::Backspace => Some(
                spec_with_alt(
                    if has_mod(m, MOD_CONTROL) {
                        seq![0x17u8]
                    } else {
                        seq![0x7fu8]
                    },
                    alt,
                ),
            ),
            KeyInputCode::Enter => Some(spec_with_alt(seq![0x0du8], alt)),
            KeyInputCode::Tab => Some(spec_with_alt(seq![0x09u8], alt)),
            KeyInputCode::BackTab => Some(seq![0x1bu8, 0x5bu8, 0x5au8]),
            KeyInputCode::Esc => Some(seq![0x1bu8]),
            KeyInputCode::Left => Some(spec_cursor_key(0x44, m, application_cursor)),
            KeyInputCode::Right => Some(spec_cursor_key(0x43, m, application_cursor)),
            KeyInputCode::Up => Some(spec_cursor_key(0x41, m, application_cursor)),
            KeyInputCode::Down => Some(spec_cursor_key(0x42, m, application_cursor)),
            KeyInputCode::Home => Some(spec_ss3_key(0x48, m)),
            KeyInputCode::End => Some(spec_ss3_key(0x46, m)),
            KeyInputCode::PageUp => Some(spec_csi_tilde(5, m)),
            KeyInputCode::PageDown => Some(spec_csi_tilde(6, m)),
            KeyInputCode::Delete => Some(spec_csi_tilde(3, m)),
            KeyInputCode::Insert => Some(spec_csi_tilde(2, m)),
            KeyInputCode::F(n) => spec_function_key(n, m),
            KeyInputCode::Null => Some(seq![0x00u8]),
            KeyInputCode::Char(c) => Some(spec_with_alt(encode_utf8(seq![c]), alt)),
        }
    }
}

/// The control byte for Ctrl plus `c`.
pub fn ctrl_byte(c: char) -> (r: Option<u8>)
    ensures
        r == spec_ctrl_byte(c),
{
    if 'a' <= c && c <= 'z' {
        Some((c as u32 - 96) as u8)
    } else if 'A' <= c && c <= 'Z' {
        Some((c as u32 - 64) as u8)
    } else if c == ' ' || c == '@' || c == '2' {
        Some(0x00)
    } else if c == '[' || c == '3' {
        Some(0x1b)
    } else if c == '\\' || c == '4' {
        Some(0x1c)
    } else if c == ']' || c == '5' {
        Some(0x1d)
    } else if c == '^' || c == '6' {
        Some(0x1e)
    } else if c == '_' || c == '/' || c == '-' || c == '7' {
        Some(0x1f)
    } else if c == '?' || c == '8' {
        Some(0x7f)
    } else {
        None
    }
}

/// The xterm modifier parameter for the modifier bits `m`.
pub fn modifier_code(m: u8) -> (r: Option<u8>)
    ensures
        r == spec_modifier_code(m),
{
    let mut code: u8 = 1;
    if m & MOD_SHIFT != 0 {
        code = code + 1;
    }
    if m & MOD_ALT != 0 {
        code = code + 2;
    }
    if m & MOD_CONTROL != 0 {
        code = code + 4;
    }
    if code != 1 {
        Some(code)
    } else {
        None
    }
}

/// Prefixes `ESC` when Alt is held.
pub fn with_alt(bytes: Vec<u8>, alt: bool) -> (r: Vec<u8>)
    ensures
        r@ == spec_with_alt(bytes@, alt),
{
    if alt {
        let mut r: Vec<u8> = Vec::new();
        r.push(0x1b);
        let mut i: usize = 0;
        while i < bytes.len()
            invariant
                i <= bytes.len(),
                r@ == seq![0x1bu8] + bytes@.take(i as int),
            decreases bytes.len() - i,
        {
            r.push(bytes[i]);
            i = i + 1;
            assert(r@ =~= seq![0x1bu8] + bytes@.take(i as int));
        }
        assert(bytes@.take(bytes.len() as int) =~= bytes@);
        r
    } else {
        bytes
    }
}

fn bytes3(a: u8, b: u8, c: u8) -> (r: Vec<u8>)
    ensures
        r@ == seq![a, b, c],
{
    let mut r: Vec<u8> = Vec::new();
    r.push(a);
    r.push(b);
    r.push(c);
    assert(r@ =~= seq![a, b, c]);
    r
}

fn one_byte(a: u8) -> (r: Vec<u8>)
    ensures
        r@ == seq![a],
{
    let mut r: Vec<u8> = Vec::new();
    r.push(a);
    assert(r@ =~= seq![a]);
    r
}

/// `ESC [ 1 ; code final`.
fn csi_one_mod(final_byte: u8, code: u8) -> (r: Vec<u8>)
    ensures
        r@ == seq![0x1bu8, 0x5bu8, 0x31u8, 0x3bu8] + dec_bytes(code as nat) + seq![final_byte],
{
    let mut r: Vec<u8> = Vec::new();
    r.push(0x1b);
    r.push(0x5b);
    r.push(0x31);
    r.push(0x3b);
    push_dec_bytes(&mut r, code as u32);
    r.push(final_byte);
    assert(r@ =~= seq![0x1bu8, 0x5bu8, 0x31u8, 0x3bu8] + dec_bytes(code as nat) + seq![final_byte]);
    r
}

fn csi_arrow(final_byte: u8, m: u8) -> (r: Vec<u8>)
    ensures
        r@ == spec_csi_arrow(final_byte, m),
{
    match modifier_code(m) {
        Some(code) => csi_one_mod(final_byte, code),
        None => bytes3(0x1b, 0x5b, final_byte),
    }
}

fn cursor_key(final_byte: u8, m: u8, application_cursor: bool) -> (r: Vec<u8>)
    ensures
        r@ == spec_cursor_key(final_byte, m, application_cursor),
{
    if modifier_code(m).is_some() {
        return csi_arrow(final_byte, m);
    }
    if application_cursor {
        bytes3(0x1b, 0x4f, final_byte)
    } else {
        bytes3(0x1b, 0x5b, final_byte)
    }
}

fn ss3_key(final_byte: u8, m: u8) -> (r: Vec<u8>)
    ensures
        r@ == spec_ss3_key(final_byte, m),
{
    match modifier_code(m) {
        Some(code) => csi_one_mod(final_byte, code),
        None => bytes3(0x1b, 0x4f, final_byte),
    }
}

fn csi_tilde(number: u8, m: u8) -> (r: Vec<u8>)
    ensures
        r@ == spec_csi_tilde(number, m),
{
    let mut r: Vec<u8> = Vec::new();
    r.push(0x1b);
    r.push(0x5b);
    push_dec_bytes(&mut r, number as u32);
    match modifier_code(m) {
        Some(code) => {
            r.push(0x3b);
            push_dec_bytes(&mut r, code as u32);
            r.push(0x7e);
        },
        None => {
            r.push(0x7e);
        },
    }
    assert(r@ =~= spec_csi_tilde(number, m));
    r
}

fn function_key(n: u8, m: u8) -> (r: Option<Vec<u8>>)
    ensures
        opt_bytes_view(r) == spec_function_key(n, m),
{
    if n == 1 {
        Some(ss3_key(0x50, m))
    } else if n == 2 {
        Some(ss3_key(0x51, m))
    } else if n == 3 {
        Some(ss3_key(0x52, m))
    } else if n == 4 {
        Some(ss3_key(0x53, m))
    } else {
        let number: u8 = if n == 5 {
            15
        } else if n == 6 {
            17
        } else if n == 7 {
            18
        } else if n == 8 {
            19
        } else if n == 9 {
            20
        } else if n == 10 {
            21
        } else if n == 11 {
            23
        } else if n == 12 {
            24
        } else {
            return None;
        };
        Some(csi_tilde(number, m))
    }
}

/// The bytes a key press sends to the child program, or `None` for a key
/// that sends nothing. `application_cursor` selects the SS3 arrow keys.
pub fn key_to_bytes(key: KeyInput, application_cursor: bool) -> (r: Option<Vec<u8>>)
    ensures
        opt_bytes_view(r) == spec_key_bytes(key, application_cursor),
{
    let m = key.modifiers;
    let alt = m & MOD_ALT != 0;
    if m & MOD_CONTROL != 0 {
        if let KeyInputCode::Char(c) = key.code {
            return match ctrl_byte(c) {
                Some(b) => Some(with_alt(one_byte(b), alt)),
                None => None,
            };
        }
    }
    let bytes = match key.code {
        KeyInputCode::Backspace => with_alt(
            one_byte(
                if m & MOD_CONTROL != 0 {
                    0x17
                } else {
                    0x7f
                },
            ),
            alt,
        ),
        KeyInputCode::Enter => with_alt(one_byte(0x0d), alt),
        KeyInputCode::Tab => with_alt(one_byte(0x09), alt),
        KeyInputCode::BackTab => bytes3(0x1b, 0x5b, 0x5a),
        KeyInputCode::Esc => one_byte(0x1b),
        KeyInputCode::Left => cursor_key(0x44, m, application_cursor),
        KeyInputCode::Right => cursor_key(0x43, m, application_cursor),
        KeyInputCode::Up => cursor_key(0x41, m, application_cursor),
        KeyInputCode::Down => cursor_key(0x42, m, application_cursor),
        KeyInputCode::Home => ss3_key(0x48, m),
        KeyInputCode::End => ss3_key(0x46, m),
        KeyInputCode::PageUp => csi_tilde(5, m),
        KeyInputCode::PageDown => csi_tilde(6, m),
        KeyInputCode::Delete => csi_tilde(3, m),
        KeyInputCode::Insert => csi_tilde(2, m),
        KeyInputCode::F(n) => {
            return function_key(n, m);
        },
        KeyInputCode::Null => one_byte(0x00),
        KeyInputCode::Char(c) => {
            let mut v: Vec<u8> = Vec::new();
            push_utf8(&mut v, c);
            assert(v@ =~= encode_utf8(seq![c]));
            with_alt(v, alt)
        },
    };
    Some(bytes)
}

/// Which mouse events the child program asked to receive.
#[derive(Debug, Clone, Copy, PartialEq, Eq, Structural)]
pub enum MouseProtocolMode {
    /// No mouse tracking.
    Off,
    Press,
    PressRelease,
    ButtonMotion,
    AnyMotion,
}

/// How mouse reports are encoded.
#[derive(Debug, Clone, Copy, PartialEq, Eq, Structural)]
pub enum MouseProtocolEncoding {
    Default,
    Utf8,
    Sgr,
}

pub open spec fn spec_button_code(b: MouseInputButton) -> u16 {
    match b {
        MouseInputButton::Left => 0,
        MouseInputButton::Middle => 1,
        MouseInputButton::Right => 2,
    }
}

pub open spec fn spec_reports_release(mode: MouseProtocolMode) -> bool {
    mode == MouseProtocolMode::PressRelease || mode == MouseProtocolMode::ButtonMotion || mode
        == MouseProtocolMode::AnyMotion
}

pub open spec fn spec_reports_drag(mode: MouseProtocolMode) -> bool {
    mode == MouseProtocolMode::ButtonMotion || mode == MouseProtocolMode::AnyMotion
}

/// The button code of a mouse report before modifiers, or `None` for an
/// event the mode does not report.
pub open spec fn spec_mouse_base_code(
    kind: MouseInputKind,
    mode: MouseProtocolMode,
    encoding: MouseProtocolEncoding,
) -> Option<u16> {
    match kind {
        MouseInputKind::Down(b) => Some(spec_button_code(b)),
        MouseInputKind::Up(b) => if spec_reports_release(mode) {
            if encoding == MouseProtocolEncoding::Sgr {
                Some(spec_button_code(b))
            } else {
                Some(3)
            }
        } else {
            None
        },
        MouseInputKind::Drag(b) => if spec_reports_drag(mode) {
            Some((spec_button_code(b) + 32) as u16)
        } else {
            None
        },
        MouseInputKind::Moved => if mode == MouseProtocolMode::AnyMotion {
            Some(35)
        } else {
            None
        },
        MouseInputKind::ScrollUp => Some(64),
        MouseInputKind::ScrollDown => Some(65),
        MouseInputKind::ScrollLeft => Some(66),
        MouseInputKind::ScrollRight => Some(67),
    }
}

/// The button code with modifiers: Shift +4, Alt +8, Control +16.
pub open spec fn spec_mouse_code(base: u16, m: u8) -> u16 {
    (base + (if has_mod(m, MOD_SHIFT) {
        4int
    } else {
        0
    }) + (if has_mod(m, MOD_ALT) {
        8int
    } else {
        0
    }) + (if has_mod(m, MOD_CONTROL) {
        16int
    } else {
        0
    })) as u16
}

pub open spec fn sat_inc(v: u16) -> u16 {
    if v == u16::MAX {
        v
    } else {
        (v + 1) as u16
    }
}

/// The X10 (`Default`) encoding: each value plus 32 in one byte, or `None`
/// when a value does not fit.
pub open spec fn spec_default_mouse(code: u16, x: u16, y: u16) -> Option<Seq<u8>> {
    if code + 32 <= 255 && x + 32 <= 255 && y + 32 <= 255 {
        Some(
            seq![0x1bu8, 0x5bu8, 0x4du8, (code + 32) as u8, (x + 32) as u8, (y + 32) as u8],
        )
    } else {
        None
    }
}

/// A value plus 32 is a character (it fits in 16 bits and is no surrogate).
pub open spec fn utf8_mouse_value_ok(v: u16) -> bool {
    v + 32 <= 0xffff && !(0xd800 <= v + 32 <= 0xdfff)
}

/// The UTF-8 encoding of one mouse-report value.
pub open spec fn utf8_mouse_value(v: u16) -> Seq<u8> {
    encode_utf8(seq![((v + 32) as u32) as char])
}

/// The UTF-8 extended encoding: each value plus 32 as a UTF-8 character.
pub open spec fn spec_utf8_mouse(code: u16, x: u16, y: u16) -> Option<Seq<u8>> {
    if utf8_mouse_value_ok(code) && utf8_mouse_value_ok(x) && utf8_mouse_value_ok(y) {
        Some(
            seq![0x1bu8, 0x5bu8, 0x4du8] + utf8_mouse_value(code) + utf8_mouse_value(x)
                + utf8_mouse_value(y),
        )
    } else {
        None
    }
}

/// The SGR encoding: `ESC [ < code ; x ; y M`, with `m` for a release.
pub open spec fn spec_sgr_mouse(code: u16, x: u16, y: u16, release: bool) -> Seq<u8> {
    seq![0x1bu8, 0x5bu8, 0x3cu8] + dec_bytes(code as nat) + seq![0x3bu8] + dec_bytes(x as nat)
        + seq![0x3bu8] + dec_bytes(y as nat) + seq![
        if release {
            0x6du8
        } else {
            0x4du8
        },
    ]
}

/// The report for a mouse event at the zero-based cell `(row, col)`
/// (reported one-based), or `None` when the mode does not report it or the
/// encoding cannot express it.
pub open spec fn spec_mouse_bytes(
    kind: MouseInputKind,
    row: u16,
    col: u16,
    m: u8,
    mode: MouseProtocolMode,
    encoding: MouseProtocolEncoding,
) -> Option<Seq<u8>> {
    match spec_mouse_base_code(kind, mode, encoding) {
        None => None,
        Some(base) => {
            let code = spec_mouse_code(base, m);
            let x = sat_inc(col);
            let y = sat_inc(row);
            match encoding {
                MouseProtocolEncoding::Sgr => Some(
                    spec_sgr_mouse(code, x, y, kind is Up),
                ),
                MouseProtocolEncoding::Default => spec_default_mouse(code, x, y),
                MouseProtocolEncoding::Utf8 => spec_utf8_mouse(code, x, y),
            }
        },
    }
}

fn button_code(b: MouseInputButton) -> (r: u16)
    ensures
        r == spec_button_code(b),
{
    match b {
        MouseInputButton::Left => 0,
        MouseInputButton::Middle => 1,
        MouseInputButton::Right => 2,
    }
}

fn reports_release(mode: MouseProtocolMode) -> (b: bool)
    ensures
        b == spec_reports_release(mode),
{
    match mode {
        MouseProtocolMode::PressRelease | MouseProtocolMode::ButtonMotion
        | MouseProtocolMode::AnyMotion => true,
        _ => false,
    }
}

fn reports_drag(mode: MouseProtocolMode) -> (b: bool)
    ensures
        b == spec_reports_drag(mode),
{
    match mode {
        MouseProtocolMode::ButtonMotion | MouseProtocolMode::AnyMotion => true,
        _ => false,
    }
}

/// The X10 mouse report, when every value fits in a byte.
pub fn default_mouse_sequence(code: u16, x: u16, y: u16) -> (r: Option<Vec<u8>>)
    ensures
        opt_bytes_view(r) == spec_default_mouse(code, x, y),
{
    if code > 223 || x > 223 || y > 223 {
        return None;
    }
    let mut v: Vec<u8> = Vec::new();
    v.push(0x1b);
    v.push(0x5b);
    v.push(0x4d);
    v.push((code + 32) as u8);
    v.push((x + 32) as u8);
    v.push((y + 32) as u8);
    assert(v@ =~= seq![0x1bu8, 0x5bu8, 0x4du8, (code + 32) as u8, (x + 32) as u8, (y + 32) as u8]);
    Some(v)
}

/// Appends one value of a UTF-8 mouse report; `None` when the value plus 32
/// is not a character.
pub fn push_utf8_mouse_value(bytes: &mut Vec<u8>, value: u16) -> (r: Option<()>)
    ensures
        r is Some == utf8_mouse_value_ok(value),
        r is Some ==> final(bytes)@ == old(bytes)@ + utf8_mouse_value(value),
        r is None ==> final(bytes)@ == old(bytes)@,
{
    if value > 0xffff - 32 {
        return None;
    }
    let codepoint: u32 = value as u32 + 32;
    let ch = match char_from_u32(codepoint) {
        Some(c) => c,
        None => {
            return None;
        },
    };
    push_utf8(bytes, ch);
    Some(())
}

/// `char::from_u32` (std): `Some` exactly for Unicode scalar values, holding
/// the character with that value.
#[verifier::external_body]
fn char_from_u32(v: u32) -> (r: Option<char>)
    ensures
        r is Some == (v <= 0x10ffff && !(0xd800 <= v <= 0xdfff)),
        r matches Some(c) ==> c == v as char,
{
    char::from_u32(v)
}

/// The UTF-8 extended mouse report, when every value is a character.
pub fn utf8_mouse_sequence(code: u16, x: u16, y: u16) -> (r: Option<Vec<u8>>)
    ensures
        opt_bytes_view(r) == spec_utf8_mouse(code, x, y),
{
    let mut bytes: Vec<u8> = Vec::new();
    bytes.push(0x1b);
    bytes.push(0x5b);
    bytes.push(0x4d);
    if push_utf8_mouse_value(&mut bytes, code).is_none() {
        return None;
    }
    if push_utf8_mouse_value(&mut bytes, x).is_none() {
        return None;
    }
    if push_utf8_mouse_value(&mut bytes, y).is_none() {
        return None;
    }
    assert(bytes@ =~= seq![0x1bu8, 0x5bu8, 0x4du8] + utf8_mouse_value(code) + utf8_mouse_value(x)
        + utf8_mouse_value(y));
    Some(bytes)
}

fn mouse_base_code(kind: MouseInputKind, mode: MouseProtocolMode, encoding: MouseProtocolEncoding) -> (r: Option<u16>)
    ensures
        r == spec_mouse_base_code(kind, mode, encoding),
        r matches Some(b) ==> b <= 67,
{
    match kind {
        MouseInputKind::Down(b) => Some(button_code(b)),
        MouseInputKind::Up(b) => {
            if !reports_release(mode) {
                return None;
            }
            match encoding {
                MouseProtocolEncoding::Sgr => Some(button_code(b)),
                _ => Some(3),
            }
        },
        MouseInputKind::Drag(b) => {
            if !reports_drag(mode) {
                return None;
            }
            Some(button_code(b) + 32)
        },
        MouseInputKind::Moved => {
            if mode != MouseProtocolMode::AnyMotion {
                return None;
            }
            Some(35)
        },
        MouseInputKind::ScrollUp => Some(64),
        MouseInputKind::ScrollDown => Some(65),
        MouseInputKind::ScrollLeft => Some(66),
        MouseInputKind::ScrollRight => Some(67),
    }
}

fn mouse_code(base: u16, m: u8) -> (code: u16)
    requires
        base <= 67,
    ensures
        code == spec_mouse_code(base, m),
{
    let mut code = base;
    if m & MOD_SHIFT != 0 {
        code = code + 4;
    }
    if m & MOD_ALT != 0 {
        code = code + 8;
    }
    if m & MOD_CONTROL != 0 {
        code = code + 16;
    }
    code
}

fn sgr_mouse(code: u16, x: u16, y: u16, release: bool) -> (v: Vec<u8>)
    ensures
        v@ == spec_sgr_mouse(code, x, y, release),
{
    let mut v: Vec<u8> = Vec::new();
    v.push(0x1b);
    v.push(0x5b);
    v.push(0x3c);
    push_dec_bytes(&mut v, code as u32);
    v.push(0x3b);
    push_dec_bytes(&mut v, x as u32);
    v.push(0x3b);
    push_dec_bytes(&mut v, y as u32);
    v.push(
        if release {
            0x6d
        } else {
            0x4d
        },
    );
    assert(v@ =~= spec_sgr_mouse(code, x, y, release));
    v
}

/// Encodes a mouse event for the child program's protocol mode and encoding.
pub fn mouse_event_to_bytes(
    kind: MouseInputKind,
    row: u16,
    col: u16,
    modifiers: u8,
    mode: MouseProtocolMode,
    encoding: MouseProtocolEncoding,
) -> (r: Option<Vec<u8>>)
    ensures
        opt_bytes_view(r) == spec_mouse_bytes(kind, row, col, modifiers, mode, encoding),
{
    let base = match mouse_base_code(kind, mode, encoding) {
        Some(b) => b,
        None => {
            return None;
        },
    };
    let code = mouse_code(base, modifiers);
    let x: u16 = if col == u16::MAX {
        col
    } else {
        col + 1
    };
    let y: u16 = if row == u16::MAX {
        row
    } else {
        row + 1
    };
    let release = match kind {
        MouseInputKind::Up(_) => true,
        _ => false,
    };
    match encoding {
        MouseProtocolEncoding::Sgr => Some(sgr_mouse(code, x, y, release)),
        MouseProtocolEncoding::Default => default_mouse_sequence(code, x, y),
        MouseProtocolEncoding::Utf8 => utf8_mouse_sequence(code, x, y),
    }
}

/// One cell of the emulator's screen, as plain values.
#[derive(Debug, Clone)]
pub struct ScreenCell {
    pub contents: String,
    pub has_contents: bool,
    pub style: TerminalStyle,
    pub is_wide: bool,
    pub is_wide_continuation: bool,
}

/// A cell that ends a row's visible content: it has text or a non-default
/// style (the right half of a wide character never counts).
pub open spec fn cell_used(c: ScreenCell) -> bool {
    !c.is_wide_continuation && (c.has_contents || c.style != default_style())
}

/// The column where the row's visible content ends (one further for a wide
/// character), or `None` for a blank row.
pub open spec fn last_used_col(cells: Seq<ScreenCell>, n: int) -> Option<int>
    decreases n,
{
    if n <= 0 {
        None
    } else if cell_used(cells[n - 1]) {
        Some(
            if cells[n - 1].is_wide {
                if n - 1 == u16::MAX as int {
                    n - 1
                } else {
                    n
                }
            } else {
                n - 1
            },
        )
    } else {
        last_used_col(cells, n - 1)
    }
}

/// The style a cell is drawn with: inverted when it is selected.
pub open spec fn drawn_style(c: ScreenCell, selection: Option<SelectionRange>, row: u16, col: u16) -> TerminalStyle {
    match selection {
        Some(sel) => if selection_contains(sel, row, col) {
            TerminalStyle { inverse: !c.style.inverse, ..c.style }
        } else {
            c.style
        },
        None => c.style,
    }
}

/// The text a cell is drawn with: its contents, or a blank.
pub open spec fn drawn_text(c: ScreenCell) -> Seq<char> {
    if c.has_contents {
        c.contents@
    } else {
        seq![' ']
    }
}

/// The drawn cells of columns `0..n`, skipping wide-character halves.
pub open spec fn drawn_cells(cells: Seq<ScreenCell>, selection: Option<SelectionRange>, row: u16, n: int) -> Seq<(TerminalStyle, Seq<char>)>
    decreases n,
{
    if n <= 0 {
        Seq::empty()
    } else if cells[n - 1].is_wide_continuation {
        drawn_cells(cells, selection, row, n - 1)
    } else {
        drawn_cells(cells, selection, row, n - 1).push(
            (drawn_style(cells[n - 1], selection, row, (n - 1) as u16), drawn_text(cells[n - 1])),
        )
    }
}

/// Consecutive pieces with equal styles merged into one span.
pub open spec fn merge_runs(items: Seq<(TerminalStyle, Seq<char>)>) -> Seq<(TerminalStyle, Seq<char>)>
    decreases items.len(),
{
    if items.len() == 0 {
        Seq::empty()
    } else {
        let g = merge_runs(items.drop_last());
        let it = items.last();
        if g.len() > 0 && g.last().0 == it.0 {
            g.update(g.len() - 1, (it.0, g.last().1 + it.1))
        } else {
            g.push(it)
        }
    }
}

/// The spans a screen row is drawn with: its cells up to the end of its
/// visible content, merged into runs of equal style.
pub open spec fn spec_row_spans(cells: Seq<ScreenCell>, selection: Option<SelectionRange>, row: u16) -> Seq<(TerminalStyle, Seq<char>)> {
    match last_used_col(cells, cells.len() as int) {
        None => Seq::empty(),
        Some(last) => {
            let end = if last < cells.len() - 1 {
                last
            } else {
                cells.len() - 1
            };
            merge_runs(drawn_cells(cells, selection, row, end + 1))
        },
    }
}

pub open spec fn spans_view(spans: Seq<TerminalSpan>) -> Seq<(TerminalStyle, Seq<char>)> {
    Seq::new(spans.len(), |i: int| (spans[i].style, spans[i].text@))
}

fn flip_if_selected(style: TerminalStyle, selection: Option<SelectionRange>, row: u16, col: u16) -> (r: TerminalStyle)
    ensures
        r == match selection {
            Some(sel) => if selection_contains(sel, row, col) {
                TerminalStyle { inverse: !style.inverse, ..style }
            } else {
                style
            },
            None => style,
        },
{
    match selection {
        Some(sel) => if sel.contains_cell(row, col) {
            TerminalStyle { inverse: !style.inverse, ..style }
        } else {
            style
        },
        None => style,
    }
}

fn append_string(dst: &mut String, src: &String)
    ensures
        final(dst)@ == old(dst)@ + src@,
{
    crate::text::push_str(dst, src.as_str());
}

fn blank_string() -> (s: String)
    ensures
        s@ == seq![' '],
{
    let mut s = String::new();
    crate::text::push_char(&mut s, ' ');
    s
}

/// The spans one screen row is drawn with.
pub fn row_spans(cells: &Vec<ScreenCell>, selection: Option<SelectionRange>, row: u16) -> (r: Vec<TerminalSpan>)
    requires
        cells.len() <= u16::MAX as int + 1,
    ensures
        spans_view(r@) == spec_row_spans(cells@, selection, row),
{
    let n = cells.len();
    let mut last: Option<usize> = None;
    let mut col: usize = 0;
    while col < n
        invariant
            col <= n == cells.len(),
            n <= u16::MAX as int + 1,
            match last {
                Some(l) => last_used_col(cells@, col as int) == Some(l as int),
                None => last_used_col(cells@, col as int) is None,
            },
        decreases n - col,
    {
        let cell = &cells[col];
        if !cell.is_wide_continuation && (cell.has_contents || !cell.style.is_default()) {
            last = Some(
                if cell.is_wide {
                    if col == 65535 {
                        col
                    } else {
                        col + 1
                    }
                } else {
                    col
                },
            );
        }
        col = col + 1;
    }
    let last = match last {
        None => {
            return Vec::new();
        },
        Some(l) => l,
    };
    let end = if last < n - 1 {
        last
    } else {
        n - 1
    };
    let mut spans: Vec<TerminalSpan> = Vec::new();
    let mut col: usize = 0;
    while col <= end
        invariant
            end < n == cells.len(),
            n <= u16::MAX as int + 1,
            col <= end + 1,
            spans_view(spans@) == merge_runs(drawn_cells(cells@, selection, row, col as int)),
        decreases end + 1 - col,
    {
        let cell = &cells[col];
        if !cell.is_wide_continuation {
            let style = flip_if_selected(cell.style, selection, row, col as u16);
            let text = if cell.has_contents {
                cell.contents.clone()
            } else {
                blank_string()
            };
            let ghost g = spans_view(spans@);
            let ghost items = drawn_cells(cells@, selection, row, col as int);
            assert(style == drawn_style(cells@[col as int], selection, row, col as u16));
            assert(text@ == drawn_text(cells@[col as int]));
            assert(drawn_cells(cells@, selection, row, col + 1) == items.push((style, text@)));
            assert(items.push((style, text@)).drop_last() =~= items);
            let k = spans.len();
            if k > 0 && spans[k - 1].style == style {
                let mut last_span = spans.pop().unwrap();
                append_string(&mut last_span.text, &text);
                spans.push(last_span);
                assert(spans_view(spans@) =~= g.update(g.len() - 1, (style, g.last().1 + text@)));
            } else {
                spans.push(TerminalSpan { text, style });
                assert(spans_view(spans@) =~= g.push((style, text@)));
            }
        }
        col = col + 1;
    }
    spans
}

/// The spans of every screen row (row `i` of `screen` is screen row `i`).
pub fn styled_rows(screen: &Vec<Vec<ScreenCell>>, selection: Option<SelectionRange>) -> (r: Vec<
    Vec<TerminalSpan>,
>)
    requires
        screen.len() <= u16::MAX as int + 1,
        forall|i: int| 0 <= i < screen.len() ==> #[trigger] screen@[i].len() <= u16::MAX as int + 1,
    ensures
        r.len() == screen.len(),
        forall|i: int|
            0 <= i < screen.len() ==> spans_view(#[trigger] r@[i]@) == spec_row_spans(
                screen@[i]@,
                selection,
                i as u16,
            ),
{
    let mut rows: Vec<Vec<TerminalSpan>> = Vec::new();
    let mut i: usize = 0;
    while i < screen.len()
        invariant
            i <= screen.len() <= u16::MAX as int + 1,
            forall|k: int| 0 <= k < screen.len() ==> #[trigger] screen@[k].len() <= u16::MAX as int + 1,
            rows.len() == i,
            forall|k: int|
                0 <= k < i ==> spans_view(#[trigger] rows@[k]@) == spec_row_spans(
                    screen@[k]@,
                    selection,
                    k as u16,
                ),
        decreases screen.len() - i,
    {
        let spans = row_spans(&screen[i], selection, i as u16);
        rows.push(spans);
        i = i + 1;
    }
    rows
}

pub open spec fn min_u16(a: u16, b: u16) -> u16 {
    if a <= b {
        a
    } else {
        b
    }
}

/// The cells whose text a selection copies on a `rows` by `cols` screen:
/// `(start_row, start_col, end_row, end_col_exclusive)` after clamping to the
/// screen, or `None` when nothing is selected.
pub open spec fn spec_selection_bounds(rows: u16, cols: u16, selection: SelectionRange) -> Option<
    (u16, u16, u16, u16),
> {
    if rows == 0 || cols == 0 {
        None
    } else {
        let r = spec_normalized(selection);
        let start_row = min_u16(r.start_row, (rows - 1) as u16);
        let end_row = min_u16(r.end_row, (rows - 1) as u16);
        let start_col = min_u16(r.start_col, cols);
        let end_col = min_u16(sat_inc(r.end_col), cols);
        if start_row > end_row || (start_row == end_row && start_col >= end_col) {
            None
        } else {
            Some((start_row, start_col, end_row, end_col))
        }
    }
}

/// Clamps a selection to a `rows` by `cols` screen, giving the range whose
/// text is copied (end column exclusive).
pub fn selection_bounds(rows: u16, cols: u16, selection: SelectionRange) -> (r: Option<
    (u16, u16, u16, u16),
>)
    ensures
        r == spec_selection_bounds(rows, cols, selection),
{
    if rows == 0 || cols == 0 {
        return None;
    }
    let range = selection.normalized();
    let start_row = if range.start_row < rows - 1 {
        range.start_row
    } else {
        rows - 1
    };
    let end_row = if range.end_row < rows - 1 {
        range.end_row
    } else {
        rows - 1
    };
    if start_row > end_row {
        return None;
    }
    let start_col = if range.start_col < cols {
        range.start_col
    } else {
        cols
    };
    let end_inc = if range.end_col == u16::MAX {
        range.end_col
    } else {
        range.end_col + 1
    };
    let end_col = if end_inc < cols {
        end_inc
    } else {
        cols
    };
    if start_row == end_row && start_col >= end_col {
        return None;
    }
    Some((start_row, start_col, end_row, end_col))
}

/// The text of all pieces, in order.
pub open spec fn concat_texts(items: Seq<(TerminalStyle, Seq<char>)>) -> Seq<char>
    decreases items.len(),
{
    if items.len() == 0 {
        Seq::empty()
    } else {
        concat_texts(items.drop_last()) + items.last().1
    }
}

/// Merging runs keeps the text and leaves no two neighbouring spans with the
/// same style.
pub proof fn merge_runs_laws(items: Seq<(TerminalStyle, Seq<char>)>)
    ensures
        concat_texts(merge_runs(items)) == concat_texts(items),
        forall|i: int|
            0 <= i < merge_runs(items).len() - 1 ==> (#[trigger] merge_runs(items)[i]).0
                != merge_runs(items)[i + 1].0,
        merge_runs(items).len() <= items.len(),
        items.len() > 0 ==> merge_runs(items).len() > 0 && merge_runs(items).last().0 == items.last().0,
    decreases items.len(),
{
    if items.len() > 0 {
        let rest = items.drop_last();
        merge_runs_laws(rest);
        let g = merge_runs(rest);
        let it = items.last();
        if g.len() > 0 && g.last().0 == it.0 {
            let u = g.update(g.len() - 1, (it.0, g.last().1 + it.1));
            assert(u.drop_last() =~= g.drop_last());
            assert(concat_texts(g) == concat_texts(g.drop_last()) + g.last().1);
            assert(concat_texts(u) =~= concat_texts(g) + it.1);
            assert forall|i: int| 0 <= i < u.len() - 1 implies (#[trigger] u[i]).0 != u[i + 1].0 by {
                assert(u[i] == g[i]);
                if i + 1 < u.len() - 1 {
                    assert(u[i + 1] == g[i + 1]);
                }
            }
        } else {
            let u = g.push(it);
            assert(u.drop_last() =~= g);
            assert forall|i: int| 0 <= i < u.len() - 1 implies (#[trigger] u[i]).0 != u[i + 1].0 by {
                assert(u[i] == g[i]);
                if i + 1 < u.len() - 1 {
                    assert(u[i + 1] == g[i + 1]);
                }
            }
        }
    }
}

proof fn lemma_drawn_text_ignores_selection(
    cells: Seq<ScreenCell>,
    s1: Option<SelectionRange>,
    s2: Option<SelectionRange>,
    row: u16,
    n: int,
)
    ensures
        concat_texts(drawn_cells(cells, s1, row, n)) == concat_texts(drawn_cells(cells, s2, row, n)),
    decreases n,
{
    if n > 0 {
        lemma_drawn_text_ignores_selection(cells, s1, s2, row, n - 1);
        if !cells[n - 1].is_wide_continuation {
            let a = drawn_cells(cells, s1, row, n);
            let b = drawn_cells(cells, s2, row, n);
            assert(a.drop_last() =~= drawn_cells(cells, s1, row, n - 1));
            assert(b.drop_last() =~= drawn_cells(cells, s2, row, n - 1));
        }
    }
}

proof fn lemma_drawn_texts_nonempty(cells: Seq<ScreenCell>, sel: Option<SelectionRange>, row: u16, n: int)
    requires
        n <= cells.len(),
        forall|j: int| 0 <= j < cells.len() && (#[trigger] cells[j]).has_contents ==> cells[j].contents@.len() > 0,
    ensures
        forall|i: int|
            0 <= i < drawn_cells(cells, sel, row, n).len() ==> (#[trigger] drawn_cells(cells, sel, row, n)[i]).1.len()
                > 0,
    decreases n,
{
    if n > 0 {
        lemma_drawn_texts_nonempty(cells, sel, row, n - 1);
        let c = cells[n - 1];
        assert(c.has_contents ==> c.contents@.len() > 0);
        let prev = drawn_cells(cells, sel, row, n - 1);
        let cur = drawn_cells(cells, sel, row, n);
        if !c.is_wide_continuation {
            assert forall|i: int| 0 <= i < cur.len() implies (#[trigger] cur[i]).1.len() > 0 by {
                if i < prev.len() {
                    assert(cur[i] == prev[i]);
                } else {
                    assert(cur[i].1 == drawn_text(c));
                }
            }
        }
    }
}

proof fn lemma_drawn_nonempty(cells: Seq<ScreenCell>, sel: Option<SelectionRange>, row: u16, n: int, u: int)
    requires
        0 <= u < n,
        !cells[u].is_wide_continuation,
    ensures
        drawn_cells(cells, sel, row, n).len() > 0,
    decreases n,
{
    if u < n - 1 {
        lemma_drawn_nonempty(cells, sel, row, n - 1, u);
    }
}

proof fn lemma_merge_texts_nonempty(items: Seq<(TerminalStyle, Seq<char>)>)
    requires
        forall|i: int| 0 <= i < items.len() ==> (#[trigger] items[i]).1.len() > 0,
    ensures
        forall|i: int| 0 <= i < merge_runs(items).len() ==> (#[trigger] merge_runs(items)[i]).1.len() > 0,
    decreases items.len(),
{
    if items.len() > 0 {
        let rest = items.drop_last();
        assert forall|i: int| 0 <= i < rest.len() implies (#[trigger] rest[i]).1.len() > 0 by {
            assert(rest[i] == items[i]);
        }
        lemma_merge_texts_nonempty(rest);
        assert(items.last() == items[items.len() - 1]);
        let g = merge_runs(rest);
        let it = items.last();
        let m = merge_runs(items);
        assert forall|i: int| 0 <= i < m.len() implies (#[trigger] m[i]).1.len() > 0 by {
            if g.len() > 0 && g.last().0 == it.0 {
                if i < g.len() - 1 {
                    assert(m[i] == g[i]);
                } else {
                    assert(m[i].1 == g.last().1 + it.1);
                }
            } else {
                if i < g.len() {
                    assert(m[i] == g[i]);
                } else {
                    assert(m[i] == it);
                }
            }
        }
    }
}

proof fn lemma_last_used(cells: Seq<ScreenCell>, n: int)
    requires
        n <= cells.len(),
    ensures
        last_used_col(cells, n) matches Some(last) ==> exists|u: int|
            0 <= u < n && u <= last && #[trigger] cell_used(cells[u]),
    decreases n,
{
    if n > 0 && !cell_used(cells[n - 1]) {
        lemma_last_used(cells, n - 1);
    } else if n > 0 {
        assert(cell_used(cells[n - 1]));
    }
}

/// What a screen row is drawn with: no spans exactly when no cell is used;
/// no two neighbouring spans share a style; the selection changes styles
/// only, never the text; and where every cell with contents has some, no
/// span is empty.
pub proof fn row_spans_laws(cells: Seq<ScreenCell>, selection: Option<SelectionRange>, row: u16)
    ensures
        (spec_row_spans(cells, selection, row).len() == 0) == (last_used_col(cells, cells.len() as int) is None),
        forall|i: int|
            0 <= i < spec_row_spans(cells, selection, row).len() - 1 ==> (#[trigger] spec_row_spans(
                cells,
                selection,
                row,
            )[i]).0 != spec_row_spans(cells, selection, row)[i + 1].0,
        concat_texts(spec_row_spans(cells, selection, row)) == concat_texts(spec_row_spans(cells, None, row)),
        (forall|j: int| 0 <= j < cells.len() && (#[trigger] cells[j]).has_contents ==> cells[j].contents@.len() > 0)
            ==> forall|i: int|
            0 <= i < spec_row_spans(cells, selection, row).len() ==> (#[trigger] spec_row_spans(
                cells,
                selection,
                row,
            )[i]).1.len() > 0,
{
    lemma_last_used(cells, cells.len() as int);
    match last_used_col(cells, cells.len() as int) {
        None => {},
        Some(last) => {
            let end = if last < cells.len() - 1 {
                last
            } else {
                cells.len() - 1
            };
            let items = drawn_cells(cells, selection, row, end + 1);
            merge_runs_laws(items);
            merge_runs_laws(drawn_cells(cells, None, row, end + 1));
            lemma_drawn_text_ignores_selection(cells, selection, None, row, end + 1);
            let u = choose|u: int| 0 <= u < cells.len() && u <= last && #[trigger] cell_used(cells[u]);
            lemma_drawn_nonempty(cells, selection, row, end + 1, u);
            if forall|j: int| 0 <= j < cells.len() && (#[trigger] cells[j]).has_contents ==> cells[j].contents@.len() > 0 {
                lemma_drawn_texts_nonempty(cells, selection, row, end + 1);
                lemma_merge_texts_nonempty(items);
            }
        },
    }
}

/// The columns `unicode_width`'s `UnicodeWidthStr::width` gives `s`.
pub uninterp spec fn display_width(s: Seq<char>) -> nat;

/// `unicode_width::UnicodeWidthStr::width`; claimed: the result is
/// `display_width` of the text, a function of the text alone (the crate's
/// fixed Unicode width tables). Nothing is claimed of the widths
/// themselves.
#[verifier::external_body]
fn text_width(s: &str) -> (r: usize)
    ensures
        r == display_width(s@),
{
    unicode_width::UnicodeWidthStr::width(s)
}

/// The columns the spans of a row take together.
pub open spec fn spans_width(spans: Seq<TerminalSpan>) -> nat
    decreases spans.len(),
{
    if spans.len() == 0 {
        0
    } else {
        spans_width(spans.drop_last()) + display_width(spans.last().text@)
    }
}

/// The blank columns a drawn row needs after its spans to cover `width`
/// columns, so that nothing from an earlier frame shows through.
pub fn row_padding(spans: &Vec<TerminalSpan>, width: u16) -> (pad: usize)
    ensures
        pad == if spans_width(spans@) < width { width - spans_width(spans@) } else { 0 },
{
    if width == 0 {
        return 0;
    }
    let mut used: usize = 0;
    let mut i: usize = 0;
    assert(spans@.take(0) =~= Seq::<TerminalSpan>::empty());
    while i < spans.len()
        invariant
            i <= spans@.len(),
            used == spans_width(spans@.take(i as int)),
            used < width,
        decreases spans.len() - i,
    {
        let w = text_width(spans[i].text.as_str());
        proof {
            assert(spans@.take(i + 1).drop_last() =~= spans@.take(i as int));
            lemma_spans_width_grows(spans@, i + 1);
        }
        if w >= width as usize - used {
            return 0;
        }
        used = used + w;
        i = i + 1;
    }
    assert(spans@.take(spans.len() as int) =~= spans@);
    width as usize - used
}

proof fn lemma_spans_width_grows(spans: Seq<TerminalSpan>, k: int)
    requires
        0 <= k <= spans.len(),
    ensures
        spans_width(spans.take(k)) <= spans_width(spans),
    decreases spans.len() - k,
{
    if k < spans.len() {
        lemma_spans_width_grows(spans, k + 1);
        assert(spans.take(k + 1).drop_last() =~= spans.take(k));
    } else {
        assert(spans.take(k) =~= spans);
    }
}

proof fn lemma_drawn_untouched(cells: Seq<ScreenCell>, sel: SelectionRange, row: u16, n: int)
    requires
        n <= cells.len() <= u16::MAX as int + 1,
        forall|c: int| 0 <= c < cells.len() ==> !#[trigger] selection_contains(sel, row, c as u16),
    ensures
        drawn_cells(cells, Some(sel), row, n) == drawn_cells(cells, None, row, n),
    decreases n,
{
    if n > 0 {
        lemma_drawn_untouched(cells, sel, row, n - 1);
        assert(!selection_contains(sel, row, (n - 1) as u16));
    }
}

/// The highlight goes only where the selection is: a selection that covers
/// no cell of a row draws that row exactly as no selection does.
pub proof fn unselected_row_is_unchanged(cells: Seq<ScreenCell>, sel: SelectionRange, row: u16)
    requires
        cells.len() <= u16::MAX as int + 1,
        forall|c: int| 0 <= c < cells.len() ==> !#[trigger] selection_contains(sel, row, c as u16),
    ensures
        spec_row_spans(cells, Some(sel), row) == spec_row_spans(cells, None, row),
{
    match last_used_col(cells, cells.len() as int) {
        None => {},
        Some(last) => {
            let end = if last < cells.len() - 1 {
                last
            } else {
                cells.len() - 1
            };
            lemma_last_used(cells, cells.len() as int);
            lemma_drawn_untouched(cells, sel, row, end + 1);
        },
    }
}

proof fn lemma_csi_tilde_shape(n: u8, m: u8)
    requires
        n < 10,
    ensures
        spec_csi_tilde(n, m).len() >= 4,
        spec_csi_tilde(n, m)[0] == 0x1b,
        spec_csi_tilde(n, m)[1] == 0x5b,
        spec_csi_tilde(n, m)[2] == n + 48,
        spec_csi_tilde(n, m).last() == 0x7e,
        spec_modifier_code(m) is None ==> spec_csi_tilde(n, m) == seq![0x1bu8, 0x5bu8, (n + 48) as u8, 0x7eu8],
{
    assert(dec_bytes(n as nat) == seq![(n + 48) as u8]);
    let t = spec_csi_tilde(n, m);
    match spec_modifier_code(m) {
        Some(code) => {
            let pre = seq![0x1bu8, 0x5bu8] + dec_bytes(n as nat) + seq![0x3bu8];
            assert(t == pre + dec_bytes(code as nat) + seq![0x7eu8]);
            assert(t[2] == pre[2]);
        },
        None => {
            assert(t =~= seq![0x1bu8, 0x5bu8, (n + 48) as u8, 0x7eu8]);
        },
    }
}

/// The editing keys follow xterm: each sends `ESC [ number ~` (with `;code`
/// for modifiers) with its own number, Insert 2, Delete 3, Page Up 5 and
/// Page Down 6, so no two of them send the same bytes; an unmodified Delete
/// sends exactly `ESC [ 3 ~`.
pub proof fn editing_keys_encode_distinctly(m: u8, application_cursor: bool)
    ensures
        ({
            let ins = spec_key_bytes((KeyInput { code: KeyInputCode::Insert, modifiers: m }), application_cursor);
            let del = spec_key_bytes((KeyInput { code: KeyInputCode::Delete, modifiers: m }), application_cursor);
            let up = spec_key_bytes((KeyInput { code: KeyInputCode::PageUp, modifiers: m }), application_cursor);
            let down = spec_key_bytes((KeyInput { code: KeyInputCode::PageDown, modifiers: m }), application_cursor);
            &&& ins matches Some(b) && b.len() >= 4 && b[0] == 0x1b && b[1] == 0x5b && b[2] == 0x32 && b.last() == 0x7e
            &&& del matches Some(b) && b.len() >= 4 && b[0] == 0x1b && b[1] == 0x5b && b[2] == 0x33 && b.last() == 0x7e
            &&& up matches Some(b) && b.len() >= 4 && b[0] == 0x1b && b[1] == 0x5b && b[2] == 0x35 && b.last() == 0x7e
            &&& down matches Some(b) && b.len() >= 4 && b[0] == 0x1b && b[1] == 0x5b && b[2] == 0x36 && b.last() == 0x7e
            &&& ins != del && ins != up && ins != down && del != up && del != down && up != down
            &&& !has_mod(m, MOD_SHIFT) && !has_mod(m, MOD_ALT) && !has_mod(m, MOD_CONTROL) ==> del == Some(
                seq![0x1bu8, 0x5bu8, 0x33u8, 0x7eu8],
            )
        }),
{
    lemma_csi_tilde_shape(2, m);
    lemma_csi_tilde_shape(3, m);
    lemma_csi_tilde_shape(5, m);
    lemma_csi_tilde_shape(6, m);
}

proof fn lemma_two_digits(n: nat)
    requires
        10 <= n < 100,
    ensures
        dec_bytes(n) == seq![(n / 10 + 48) as u8, (n % 10 + 48) as u8],
{
    assert(dec_bytes(n / 10) == seq![(n / 10 + 48) as u8]);
    assert(dec_bytes(n) =~= seq![(n / 10 + 48) as u8, (n % 10 + 48) as u8]);
}

/// Wheel reports: scrolling up is button 64 and scrolling down button 65
/// (plus the modifier bits), so the two directions always differ; in the
/// SGR encoding an unmodified wheel-up report starts `ESC [ < 64 ;` and a
/// wheel-down report `ESC [ < 65 ;`.
pub proof fn wheel_directions_are_distinct(row: u16, col: u16, m: u8, mode: MouseProtocolMode)
    ensures
        ({
            let up = spec_mouse_bytes(MouseInputKind::ScrollUp, row, col, m, mode, MouseProtocolEncoding::Sgr);
            let down = spec_mouse_bytes(MouseInputKind::ScrollDown, row, col, m, mode, MouseProtocolEncoding::Sgr);
            &&& up is Some && down is Some && up != down
            &&& !has_mod(m, MOD_SHIFT) && !has_mod(m, MOD_ALT) && !has_mod(m, MOD_CONTROL) ==> up->0.take(6) == seq![
                0x1bu8,
                0x5bu8,
                0x3cu8,
                0x36u8,
                0x34u8,
                0x3bu8,
            ] && down->0.take(6) == seq![0x1bu8, 0x5bu8, 0x3cu8, 0x36u8, 0x35u8, 0x3bu8]
        }),
        ({
            let up = spec_mouse_bytes(MouseInputKind::ScrollUp, row, col, m, mode, MouseProtocolEncoding::Default);
            let down = spec_mouse_bytes(MouseInputKind::ScrollDown, row, col, m, mode, MouseProtocolEncoding::Default);
            up is Some && down is Some ==> up != down
        }),
{
    let cu = spec_mouse_code(64, m);
    let cd = spec_mouse_code(65, m);
    assert(64 <= cu <= 92 && cd == cu + 1);
    let x = sat_inc(col);
    let y = sat_inc(row);
    lemma_sgr_prefix(cu, x, y);
    lemma_sgr_prefix(cd, x, y);
    assert(spec_sgr_mouse(cu, x, y, false)[4] != spec_sgr_mouse(cd, x, y, false)[4]);
    let du = spec_default_mouse(cu, x, y);
    let dd = spec_default_mouse(cd, x, y);
    if du is Some && dd is Some {
        assert(du->0[3] != dd->0[3]);
    }
}

proof fn lemma_sgr_prefix(code: u16, x: u16, y: u16)
    requires
        10 <= code < 100,
    ensures
        spec_sgr_mouse(code, x, y, false).len() > 5,
        spec_sgr_mouse(code, x, y, false)[4] == (code % 10 + 48) as u8,
        spec_sgr_mouse(code, x, y, false).take(6) == seq![
            0x1bu8,
            0x5bu8,
            0x3cu8,
            (code / 10 + 48) as u8,
            (code % 10 + 48) as u8,
            0x3bu8,
        ],
{
    lemma_two_digits(code as nat);
    let tail = seq![0x3bu8] + dec_bytes(x as nat) + seq![0x3bu8] + dec_bytes(y as nat) + seq![0x4du8];
    let b = spec_sgr_mouse(code, x, y, false);
    assert(b =~= seq![0x1bu8, 0x5bu8, 0x3cu8, (code / 10 + 48) as u8, (code % 10 + 48) as u8] + tail);
    assert(b.take(6) =~= seq![0x1bu8, 0x5bu8, 0x3cu8, (code / 10 + 48) as u8, (code % 10 + 48) as u8, 0x3bu8]);
}

/// Copying a selection that ends on the screen covers it exactly: for one
/// with both ends on the screen the copied range runs from its start to
/// just after its end cell, and every selected cell of the screen lies in
/// the copied range.
pub proof fn selection_copies_every_selected_cell(rows: u16, cols: u16, sel: SelectionRange)
    ensures
        ({
            let n = spec_normalized(sel);
            n.end_row < rows && n.start_col < cols && n.end_col < cols ==> spec_selection_bounds(rows, cols, sel) == Some(
                (n.start_row, n.start_col, n.end_row, (n.end_col + 1) as u16),
            )
        }),
        spec_normalized(sel).end_row < rows ==> forall|r: u16, c: u16|
            r < rows && c < cols && #[trigger] selection_contains(sel, r, c) ==> (spec_selection_bounds(rows, cols, sel)
                matches Some((sr, sc, er, ec)) && cell_le(sr, sc, r, c) && (r < er || (r == er && c < ec))),
{
    selection_normalization_laws(sel, 0, 0);
}

/// A style with its reverse-video flag flipped.
pub open spec fn inverted(st: TerminalStyle) -> TerminalStyle {
    TerminalStyle { inverse: !st.inverse, ..st }
}

/// Spans with their reverse-video flags flipped.
pub open spec fn inverted_spans(items: Seq<(TerminalStyle, Seq<char>)>) -> Seq<(TerminalStyle, Seq<char>)> {
    items.map_values(|it: (TerminalStyle, Seq<char>)| (inverted(it.0), it.1))
}

proof fn lemma_drawn_all_selected(cells: Seq<ScreenCell>, sel: SelectionRange, row: u16, n: int)
    requires
        n <= cells.len() <= u16::MAX as int + 1,
        forall|c: int| 0 <= c < cells.len() ==> #[trigger] selection_contains(sel, row, c as u16),
    ensures
        drawn_cells(cells, Some(sel), row, n) == inverted_spans(drawn_cells(cells, None, row, n)),
    decreases n,
{
    if n > 0 {
        lemma_drawn_all_selected(cells, sel, row, n - 1);
        assert(selection_contains(sel, row, (n - 1) as u16));
        let a = drawn_cells(cells, None, row, n - 1);
        if !cells[n - 1].is_wide_continuation {
            let it = (cells[n - 1].style, drawn_text(cells[n - 1]));
            assert(inverted_spans(a.push(it)) =~= inverted_spans(a).push((inverted(it.0), it.1)));
        }
    }
}

proof fn lemma_merge_inverted(items: Seq<(TerminalStyle, Seq<char>)>)
    ensures
        merge_runs(inverted_spans(items)) == inverted_spans(merge_runs(items)),
    decreases items.len(),
{
    if items.len() > 0 {
        let rest = items.drop_last();
        assert(inverted_spans(items).drop_last() =~= inverted_spans(rest));
        lemma_merge_inverted(rest);
        let g = merge_runs(rest);
        let it = items.last();
        let gi = inverted_spans(g);
        assert(inverted_spans(items).last() == (inverted(it.0), it.1));
        if g.len() > 0 {
            assert(gi.last() == (inverted(g.last().0), g.last().1));
            assert((inverted(g.last().0) == inverted(it.0)) == (g.last().0 == it.0));
        }
        if g.len() > 0 && g.last().0 == it.0 {
            assert(gi.update(gi.len() - 1, (inverted(it.0), gi.last().1 + it.1)) =~= inverted_spans(
                g.update(g.len() - 1, (it.0, g.last().1 + it.1)),
            ));
        } else {
            assert(gi.push((inverted(it.0), it.1)) =~= inverted_spans(g.push(it)));
        }
    }
}

/// A selection that covers a whole row draws it in reverse video: the same
/// spans as without the selection, each with its reverse-video flag
/// flipped.
pub proof fn selected_row_is_inverted(cells: Seq<ScreenCell>, sel: SelectionRange, row: u16)
    requires
        cells.len() <= u16::MAX as int + 1,
        forall|c: int| 0 <= c < cells.len() ==> #[trigger] selection_contains(sel, row, c as u16),
    ensures
        spec_row_spans(cells, Some(sel), row) == inverted_spans(spec_row_spans(cells, None, row)),
{
    match last_used_col(cells, cells.len() as int) {
        None => {
            assert(inverted_spans(Seq::<(TerminalStyle, Seq<char>)>::empty()) =~= Seq::<(TerminalStyle, Seq<char>)>::empty());
        },
        Some(last) => {
            let end = if last < cells.len() - 1 {
                last
            } else {
                cells.len() - 1
            };
            lemma_last_used(cells, cells.len() as int);
            lemma_drawn_all_selected(cells, sel, row, end + 1);
            lemma_merge_inverted(drawn_cells(cells, None, row, end + 1));
        },
    }
}

proof fn lemma_no_modifiers()
    ensures
        !has_mod(0, MOD_SHIFT),
        !has_mod(0, MOD_ALT),
        !has_mod(0, MOD_CONTROL),
        spec_modifier_code(0) is None,
        has_mod(MOD_CONTROL, MOD_CONTROL),
        !has_mod(MOD_CONTROL, MOD_ALT),
        !has_mod(MOD_CONTROL, MOD_SHIFT),
        has_mod(MOD_SHIFT, MOD_SHIFT),
        !has_mod(MOD_SHIFT, MOD_ALT),
        !has_mod(MOD_SHIFT, MOD_CONTROL),
        spec_modifier_code(MOD_SHIFT) == Some(2u8),
{
    assert(0u8 & 1u8 == 0u8) by (bit_vector);
    assert(0u8 & 2u8 == 0u8) by (bit_vector);
    assert(0u8 & 4u8 == 0u8) by (bit_vector);
    assert(2u8 & 2u8 == 2u8) by (bit_vector);
    assert(2u8 & 4u8 == 0u8) by (bit_vector);
    assert(2u8 & 1u8 == 0u8) by (bit_vector);
    assert(1u8 & 1u8 == 1u8) by (bit_vector);
    assert(1u8 & 4u8 == 0u8) by (bit_vector);
    assert(1u8 & 2u8 == 0u8) by (bit_vector);
}

/// Keys without modifiers send what xterm sends: Enter a carriage return,
/// Tab a tab, Backspace DEL, Escape ESC; the arrows `ESC [ A`..`ESC [ D`
/// (`ESC O` in application cursor mode); Home `ESC O H`, End `ESC O F`;
/// F1 `ESC O P`, F5 `ESC [ 15 ~`, F12 `ESC [ 24 ~`. Control with a letter
/// sends the letter's place in the alphabet, and Shift with an arrow sends
/// `ESC [ 1 ; 2` before the arrow's letter.
pub proof fn keys_follow_xterm(application_cursor: bool, c: char)
    ensures
        ({
            let k = |code: KeyInputCode| spec_key_bytes((KeyInput { code, modifiers: 0 }), application_cursor);
            let arrow = if application_cursor { 0x4fu8 } else { 0x5bu8 };
            &&& k(KeyInputCode::Enter) == Some(seq![0x0du8])
            &&& k(KeyInputCode::Tab) == Some(seq![0x09u8])
            &&& k(KeyInputCode::Backspace) == Some(seq![0x7fu8])
            &&& k(KeyInputCode::Esc) == Some(seq![0x1bu8])
            &&& k(KeyInputCode::Up) == Some(seq![0x1bu8, arrow, 0x41u8])
            &&& k(KeyInputCode::Down) == Some(seq![0x1bu8, arrow, 0x42u8])
            &&& k(KeyInputCode::Right) == Some(seq![0x1bu8, arrow, 0x43u8])
            &&& k(KeyInputCode::Left) == Some(seq![0x1bu8, arrow, 0x44u8])
            &&& k(KeyInputCode::Home) == Some(seq![0x1bu8, 0x4fu8, 0x48u8])
            &&& k(KeyInputCode::End) == Some(seq![0x1bu8, 0x4fu8, 0x46u8])
            &&& k(KeyInputCode::F(1)) == Some(seq![0x1bu8, 0x4fu8, 0x50u8])
            &&& k(KeyInputCode::F(5)) == Some(seq![0x1bu8, 0x5bu8, 0x31u8, 0x35u8, 0x7eu8])
            &&& k(KeyInputCode::F(12)) == Some(seq![0x1bu8, 0x5bu8, 0x32u8, 0x34u8, 0x7eu8])
        }),
        'a' <= c <= 'z' ==> spec_key_bytes((KeyInput { code: KeyInputCode::Char(c), modifiers: MOD_CONTROL }), application_cursor)
            == Some(seq![((c as u32) - 96) as u8]) && 1 <= (c as u32) - 96 <= 26,
        spec_key_bytes((KeyInput { code: KeyInputCode::Up, modifiers: MOD_SHIFT }), application_cursor) == Some(
            seq![0x1bu8, 0x5bu8, 0x31u8, 0x3bu8, 0x32u8, 0x41u8],
        ),
{
    lemma_no_modifiers();
    lemma_two_digits(15);
    lemma_two_digits(24);
    assert(dec_bytes(2) == seq![0x32u8]);
    assert(spec_csi_tilde(15, 0) =~= seq![0x1bu8, 0x5bu8, 0x31u8, 0x35u8, 0x7eu8]);
    assert(spec_csi_tilde(24, 0) =~= seq![0x1bu8, 0x5bu8, 0x32u8, 0x34u8, 0x7eu8]);
    assert(spec_csi_arrow(0x41, MOD_SHIFT) =~= seq![0x1bu8, 0x5bu8, 0x31u8, 0x3bu8, 0x32u8, 0x41u8]);
}

/// SGR mouse reports for presses: the three buttons are reported as 0, 1
/// and 2, so they never look alike; cells are reported one-based, column
/// first; a release of the same button at the same cell (in modes that
/// report releases) differs only in its final byte, `m` for `M`.
pub proof fn sgr_button_reports(b: MouseInputButton, row: u16, col: u16, mode: MouseProtocolMode)
    requires
        row < 9,
        col < 9,
    ensures
        ({
            let press = spec_mouse_bytes(MouseInputKind::Down(b), row, col, 0, mode, MouseProtocolEncoding::Sgr);
            let code: u8 = match b {
                MouseInputButton::Left => 0x30u8,
                MouseInputButton::Middle => 0x31u8,
                MouseInputButton::Right => 0x32u8,
            };
            press == Some(seq![0x1bu8, 0x5bu8, 0x3cu8, code, 0x3bu8, (col + 49) as u8, 0x3bu8, (row + 49) as u8, 0x4du8])
        }),
        spec_reports_release(mode) ==> ({
            let press = spec_mouse_bytes(MouseInputKind::Down(b), row, col, 0, mode, MouseProtocolEncoding::Sgr);
            let release = spec_mouse_bytes(MouseInputKind::Up(b), row, col, 0, mode, MouseProtocolEncoding::Sgr);
            &&& release is Some
            &&& release->0.len() == press->0.len()
            &&& release->0.drop_last() == press->0.drop_last()
            &&& release->0.last() == 0x6du8
        }),
{
    lemma_no_modifiers();
    let code = spec_mouse_code(spec_button_code(b), 0);
    assert(code == spec_button_code(b));
    let x = sat_inc(col);
    let y = sat_inc(row);
    assert(dec_bytes(code as nat) == seq![(code + 48) as u8]);
    assert(dec_bytes(x as nat) == seq![(x + 48) as u8]);
    assert(dec_bytes(y as nat) == seq![(y + 48) as u8]);
    let p = spec_sgr_mouse(code, x, y, false);
    let r = spec_sgr_mouse(code, x, y, true);
    assert(p =~= seq![0x1bu8, 0x5bu8, 0x3cu8, (code + 48) as u8, 0x3bu8, (x + 48) as u8, 0x3bu8, (y + 48) as u8, 0x4du8]);
    assert(r =~= seq![0x1bu8, 0x5bu8, 0x3cu8, (code + 48) as u8, 0x3bu8, (x + 48) as u8, 0x3bu8, (y + 48) as u8, 0x6du8]);
    assert(r.drop_last() =~= p.drop_last());
}

} // verus!
