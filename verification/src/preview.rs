//! Static text preview of the tuimux screen.
//!
//! A centre terminal area sits beside a compact right sidebar holding a
//! `Detach` button, the window list with close buttons and a `+ new` row.
//! Every row of the preview has the same width.

use std::path::Path;

use vstd::prelude::*;

use crate::text::{
    append_chars, append_repeat, chars_of, dec_digits, push_decimal_vec, spaces, string_of,
};

verus! {

#[verifier::external_type_specification]
#[verifier::external_body]
pub struct ExPath(Path);

/// Preview content: the window tabs `(index, name, active)` and the lines
/// shown in the terminal area.
pub struct PreviewData {
    pub windows: Vec<(u32, &'static str, bool)>,
    pub terminal_lines: Vec<&'static str>,
}

/// The window tabs as plain values.
pub open spec fn window_views(ws: Seq<(u32, &'static str, bool)>) -> Seq<(u32, Seq<char>, bool)> {
    ws.map_values(|e: (u32, &'static str, bool)| (e.0, e.1@, e.2))
}

/// The terminal lines as plain values.
pub open spec fn line_views(ls: Seq<&'static str>) -> Seq<Seq<char>> {
    ls.map_values(|l: &'static str| l@)
}

/// Rows of characters as plain values.
pub open spec fn rows_view(rows: Seq<Vec<char>>) -> Seq<Seq<char>> {
    Seq::new(rows.len(), |i: int| rows[i]@)
}

/// `s` truncated or padded to exactly `w` characters; a truncated string
/// ends with `…`.
pub open spec fn spec_fit(s: Seq<char>, w: nat) -> Seq<char> {
    if s.len() == w {
        s
    } else if s.len() > w {
        if w == 0 {
            Seq::empty()
        } else {
            s.take(w - 1).push('…')
        }
    } else {
        s + spaces((w - s.len()) as nat)
    }
}

/// Exactly `h` rows: extra rows are dropped, missing rows are blank.
pub open spec fn spec_pad_rows(rows: Seq<Seq<char>>, w: nat, h: nat) -> Seq<Seq<char>> {
    if rows.len() >= h {
        rows.take(h as int)
    } else {
        rows + Seq::new((h - rows.len()) as nat, |i: int| spaces(w))
    }
}

pub open spec fn min_nat(a: nat, b: nat) -> nat {
    if a <= b {
        a
    } else {
        b
    }
}

/// The terminal area: the first lines, fitted to the width, then blank rows.
pub open spec fn spec_main_column(lines: Seq<Seq<char>>, w: nat, h: nat) -> Seq<Seq<char>> {
    spec_pad_rows(
        lines.take(min_nat(h, lines.len()) as int).map_values(|l: Seq<char>| spec_fit(l, w)),
        w,
        h,
    )
}

pub open spec fn close_mark() -> Seq<char> {
    seq![' ', 'X', ' ']
}

/// A window label followed by a right-aligned ` X ` close button.
pub open spec fn spec_row_with_close(label: Seq<char>, w: nat) -> Seq<char> {
    if w <= 3 {
        spec_fit(close_mark(), w)
    } else {
        spec_fit(label, (w - 4) as nat) + seq![' '] + close_mark()
    }
}

/// `[ label ]` centred in `w` columns (fitted when it does not fit).
pub open spec fn spec_center_button(label: Seq<char>, w: nat) -> Seq<char> {
    let button = seq!['[', ' '] + label + seq![' ', ']'];
    if button.len() >= w {
        spec_fit(button, w)
    } else {
        let left = ((w - button.len()) / 2) as nat;
        let right = (w - button.len() - left) as nat;
        spaces(left) + button + spaces(right)
    }
}

/// `▸ 1: build` for the active window, `  2: logs` for another.
pub open spec fn window_label(e: (u32, Seq<char>, bool)) -> Seq<char> {
    seq![
        if e.2 {
            '▸'
        } else {
            ' '
        },
        ' ',
    ] + dec_digits(e.0 as nat) + seq![':', ' '] + e.1
}

pub open spec fn detach_text() -> Seq<char> {
    seq!['D', 'e', 't', 'a', 'c', 'h']
}

pub open spec fn windows_text() -> Seq<char> {
    seq!['W', 'I', 'N', 'D', 'O', 'W', 'S']
}

pub open spec fn new_text() -> Seq<char> {
    seq![' ', ' ', '+', ' ', 'n', 'e', 'w']
}

pub open spec fn rule(c: char, n: nat) -> Seq<char> {
    Seq::new(n, |i: int| c)
}

/// The sidebar: the Detach button, a rule, the `WINDOWS` title, as many
/// window rows as fit, `+ new` when there is room, then blank rows.
pub open spec fn spec_right_column(windows: Seq<(u32, Seq<char>, bool)>, w: nat, h: nat) -> Seq<
    Seq<char>,
> {
    let header = seq![
        spec_center_button(detach_text(), w),
        spec_fit(rule('─', w), w),
        spec_fit(windows_text(), w),
    ];
    let n = if h > 3 {
        min_nat((h - 3) as nat, windows.len())
    } else {
        0
    };
    let rows = header + windows.take(n as int).map_values(
        |e: (u32, Seq<char>, bool)| spec_fit(spec_row_with_close(window_label(e), w), w),
    );
    let rows = if rows.len() < h {
        rows.push(spec_fit(new_text(), w))
    } else {
        rows
    };
    spec_pad_rows(rows, w, h)
}

pub open spec fn preview_width(width: nat) -> nat {
    if width < 60 {
        60
    } else {
        width
    }
}

pub open spec fn preview_body_height(height: nat) -> nat {
    if height < 16 {
        13
    } else {
        (height - 3) as nat
    }
}

/// The rows of the preview frame, top border to bottom border.
pub open spec fn spec_preview_rows(
    lines: Seq<Seq<char>>,
    windows: Seq<(u32, Seq<char>, bool)>,
    width: nat,
    height: nat,
) -> Seq<Seq<char>> {
    let width = preview_width(width);
    let main_w = (width - 25) as nat;
    let body_h = preview_body_height(height);
    let main = spec_main_column(lines, main_w, body_h);
    let right = spec_right_column(windows, 22, body_h);
    let top = seq!['┌'] + rule('─', (width - 2) as nat) + seq!['┐'];
    let sep = seq!['├'] + rule('─', main_w) + seq!['┬'] + rule('─', 22) + seq!['┤'];
    let body = Seq::new(
        body_h,
        |i: int| seq!['│'] + main[i] + seq!['│'] + right[i] + seq!['│'],
    );
    let bottom = seq!['└'] + rule('─', main_w) + seq!['┴'] + rule('─', 22) + seq!['┘'];
    seq![top, sep] + body + seq![bottom]
}

/// Each row followed by a newline.
pub open spec fn terminated(rows: Seq<Seq<char>>) -> Seq<char>
    decreases rows.len(),
{
    if rows.len() == 0 {
        Seq::empty()
    } else {
        terminated(rows.drop_last()) + rows.last() + seq!['\n']
    }
}

/// Rows separated by newlines.
pub open spec fn joined(rows: Seq<Seq<char>>) -> Seq<char> {
    if rows.len() == 0 {
        Seq::empty()
    } else {
        terminated(rows.drop_last()) + rows.last()
    }
}

proof fn lemma_pad_rows_len(rows: Seq<Seq<char>>, w: nat, h: nat)
    ensures
        spec_pad_rows(rows, w, h).len() == h,
{
}

proof fn lemma_right_column_len(windows: Seq<(u32, Seq<char>, bool)>, w: nat, h: nat)
    ensures
        spec_right_column(windows, w, h).len() == h,
{
}

/// `s` truncated or padded to exactly `w` characters.
fn fit_vec(s: &Vec<char>, w: usize) -> (r: Vec<char>)
    ensures
        r@ == spec_fit(s@, w as nat),
{
    let count = s.len();
    if count == w {
        let mut r = Vec::new();
        append_chars(&mut r, s);
        assert(r@ =~= s@);
        r
    } else if count > w {
        let mut r: Vec<char> = Vec::new();
        if w == 0 {
            assert(r@ =~= Seq::<char>::empty());
            return r;
        }
        let mut i: usize = 0;
        while i < w - 1
            invariant
                0 < w < count == s.len(),
                i <= w - 1,
                r@ == s@.take(i as int),
            decreases w - 1 - i,
        {
            r.push(s[i]);
            i = i + 1;
            assert(r@ =~= s@.take(i as int));
        }
        r.push('…');
        r
    } else {
        let mut r = Vec::new();
        append_chars(&mut r, s);
        append_repeat(&mut r, ' ', w - count);
        assert(r@ =~= s@ + spaces((w - count) as nat));
        r
    }
}

/// Truncates `s` to `width` characters (ending in `…` when cut) or pads it
/// with blanks, so that the result has exactly `width` characters.
pub fn fit(s: &str, width: usize) -> (r: String)
    ensures
        r@ == spec_fit(s@, width as nat),
{
    let v = chars_of(s);
    string_of(&fit_vec(&v, width))
}

/// Ensures exactly `h` rows, each of `w` blanks when added.
fn pad_rows(rows: Vec<Vec<char>>, w: usize, h: usize) -> (r: Vec<Vec<char>>)
    ensures
        rows_view(r@) == spec_pad_rows(rows_view(rows@), w as nat, h as nat),
{
    let ghost old_rows = rows_view(rows@);
    let mut rows = rows;
    if rows.len() >= h {
        rows.truncate(h);
        assert(rows_view(rows@) =~= old_rows.take(h as int));
        return rows;
    }
    let ghost n0 = rows.len();
    while rows.len() < h
        invariant
            n0 <= rows.len() <= h,
            n0 == old_rows.len(),
            n0 < h,
            rows_view(rows@) == old_rows + Seq::new(
                (rows.len() - n0) as nat,
                |i: int| spaces(w as nat),
            ),
        decreases h - rows.len(),
    {
        let mut blank: Vec<char> = Vec::new();
        append_repeat(&mut blank, ' ', w);
        assert(blank@ =~= spaces(w as nat));
        let ghost prev = rows@;
        rows.push(blank);
        assert(rows_view(rows@) =~= rows_view(prev).push(spaces(w as nat)));
        assert(rows_view(rows@) =~= old_rows + Seq::new(
            (rows.len() - n0) as nat,
            |i: int| spaces(w as nat),
        ));
    }
    rows
}

fn literal(s: &str) -> (v: Vec<char>)
    ensures
        v@ == s@,
{
    chars_of(s)
}

/// The first `h` lines fitted to `w` columns, padded with blank rows.
fn main_column(lines: &Vec<&'static str>, w: usize, h: usize) -> (r: Vec<Vec<char>>)
    ensures
        rows_view(r@) == spec_main_column(line_views(lines@), w as nat, h as nat),
{
    let ghost ls = line_views(lines@);
    let mut rows: Vec<Vec<char>> = Vec::new();
    let mut i: usize = 0;
    while i < lines.len() && i < h
        invariant
            i <= lines.len(),
            i <= h,
            ls == line_views(lines@),
            rows_view(rows@) == ls.take(i as int).map_values(|l: Seq<char>| spec_fit(l, w as nat)),
        decreases lines.len() - i,
    {
        let line = chars_of(lines[i]);
        let fitted = fit_vec(&line, w);
        let ghost prev = rows@;
        rows.push(fitted);
        i = i + 1;
        assert(rows_view(rows@) =~= rows_view(prev).push(fitted@));
        assert(rows_view(rows@) =~= ls.take(i as int).map_values(
            |l: Seq<char>| spec_fit(l, w as nat),
        ));
    }
    assert(i == min_nat(h as nat, ls.len()));
    pad_rows(rows, w, h)
}

/// `label` followed by a right-aligned close button.
fn row_with_close(label: &Vec<char>, w: usize) -> (r: Vec<char>)
    ensures
        r@ == spec_row_with_close(label@, w as nat),
{
    if w <= 3 {
        let close = literal(" X ");
        proof {
            reveal_strlit(" X ");
            assert(close@ =~= close_mark());
        }
        return fit_vec(&close, w);
    }
    let mut r = fit_vec(label, w - 4);
    r.push(' ');
    r.push(' ');
    r.push('X');
    r.push(' ');
    assert(r@ =~= spec_row_with_close(label@, w as nat));
    r
}

/// `[ label ]` centred in `w` columns.
fn center_button(label: &Vec<char>, w: usize) -> (r: Vec<char>)
    requires
        label.len() < 1000,
    ensures
        r@ == spec_center_button(label@, w as nat),
{
    let mut button: Vec<char> = Vec::new();
    button.push('[');
    button.push(' ');
    append_chars(&mut button, label);
    button.push(' ');
    button.push(']');
    let ghost b = seq!['[', ' '] + label@ + seq![' ', ']'];
    assert(button@ =~= b);
    let len = button.len();
    if len >= w {
        return fit_vec(&button, w);
    }
    let left = (w - len) / 2;
    let right = w - len - left;
    let mut r: Vec<char> = Vec::new();
    append_repeat(&mut r, ' ', left);
    append_chars(&mut r, &button);
    append_repeat(&mut r, ' ', right);
    assert(r@ =~= spaces(left as nat) + b + spaces(right as nat));
    r
}

/// `▸ 1: build` or `  2: logs`.
fn window_label_vec(e: &(u32, &'static str, bool)) -> (r: Vec<char>)
    ensures
        r@ == window_label((e.0, e.1@, e.2)),
{
    let mut r: Vec<char> = Vec::new();
    r.push(
        if e.2 {
            '▸'
        } else {
            ' '
        },
    );
    r.push(' ');
    push_decimal_vec(&mut r, e.0 as u128);
    r.push(':');
    r.push(' ');
    let name = chars_of(e.1);
    append_chars(&mut r, &name);
    assert(r@ =~= window_label((e.0, e.1@, e.2)));
    r
}

/// The sidebar rows.
fn right_column(windows: &Vec<(u32, &'static str, bool)>, w: usize, h: usize) -> (r: Vec<
    Vec<char>,
>)
    ensures
        rows_view(r@) == spec_right_column(window_views(windows@), w as nat, h as nat),
{
    let ghost ws = window_views(windows@);
    let detach = literal("Detach");
    let title = literal("WINDOWS");
    let new_row = literal("  + new");
    proof {
        reveal_strlit("Detach");
        reveal_strlit("WINDOWS");
        reveal_strlit("  + new");
        assert(detach@ =~= detach_text());
        assert(title@ =~= windows_text());
        assert(new_row@ =~= new_text());
    }
    let mut line: Vec<char> = Vec::new();
    append_repeat(&mut line, '─', w);
    let mut rows: Vec<Vec<char>> = Vec::new();
    rows.push(center_button(&detach, w));
    rows.push(fit_vec(&line, w));
    rows.push(fit_vec(&title, w));
    let ghost header = seq![
        spec_center_button(detach_text(), w as nat),
        spec_fit(rule('─', w as nat), w as nat),
        spec_fit(windows_text(), w as nat),
    ];
    assert(rows_view(rows@) =~= header);
    let mut i: usize = 0;
    while i < windows.len() && rows.len() < h
        invariant
            i <= windows.len(),
            rows.len() == 3 + i,
            3 + i <= h || i == 0,
            ws == window_views(windows@),
            ws.len() == windows.len(),
            rows_view(rows@) == header + ws.take(i as int).map_values(
                |e: (u32, Seq<char>, bool)| spec_fit(spec_row_with_close(window_label(e), w as nat), w as nat),
            ),
        decreases windows.len() - i,
    {
        let label = window_label_vec(&windows[i]);
        let row = fit_vec(&row_with_close(&label, w), w);
        let ghost prev = rows@;
        rows.push(row);
        i = i + 1;
        assert(rows_view(rows@) =~= rows_view(prev).push(row@));
        assert(ws[i - 1] == (windows@[i - 1].0, windows@[i - 1].1@, windows@[i - 1].2));
        assert(rows_view(rows@) =~= header + ws.take(i as int).map_values(
            |e: (u32, Seq<char>, bool)| spec_fit(spec_row_with_close(window_label(e), w as nat), w as nat),
        ));
    }
    assert(i == (if h > 3 { min_nat((h - 3) as nat, ws.len()) } else { 0 }));
    if rows.len() < h {
        let row = fit_vec(&new_row, w);
        let ghost prev = rows@;
        rows.push(row);
        assert(rows_view(rows@) =~= rows_view(prev).push(row@));
    }
    pad_rows(rows, w, h)
}

/// Appends each row of `rows` followed by a newline.
proof fn lemma_terminated_push(rows: Seq<Seq<char>>, k: int)
    requires
        0 <= k < rows.len(),
    ensures
        terminated(rows.take(k + 1)) == terminated(rows.take(k)) + rows[k] + seq!['\n'],
{
    assert(rows.take(k + 1).drop_last() =~= rows.take(k));
}

/// Renders the layout preview as newline-separated rows, at least 60 columns
/// by 16 rows: a top border, a separator, the terminal area beside the
/// sidebar, and a bottom border.
#[verifier::rlimit(40)]
#[verifier::spinoff_prover]
pub fn render(_base: &Path, data: &PreviewData, width: usize, height: usize) -> (r: String)
    ensures
        r@ == joined(
            spec_preview_rows(
                line_views(data.terminal_lines@),
                window_views(data.windows@),
                width as nat,
                height as nat,
            ),
        ),
{
    let width = if width < 60 {
        60
    } else {
        width
    };
    let height = if height < 16 {
        16
    } else {
        height
    };
    let right_w: usize = 22;
    let main_w = width - 25;
    let body_h = height - 3;
    let main = main_column(&data.terminal_lines, main_w, body_h);
    let right = right_column(&data.windows, right_w, body_h);
    proof {
        let ls = line_views(data.terminal_lines@);
        lemma_pad_rows_len(
            ls.take(min_nat(body_h as nat, ls.len()) as int).map_values(
                |l: Seq<char>| spec_fit(l, main_w as nat),
            ),
            main_w as nat,
            body_h as nat,
        );
        assert(rows_view(main@).len() == main@.len());
        assert(rows_view(right@).len() == right@.len());
        lemma_right_column_len(window_views(data.windows@), 22, body_h as nat);
    }
    let ghost rows = spec_preview_rows(
        line_views(data.terminal_lines@),
        window_views(data.windows@),
        width as nat,
        height as nat,
    );
    let mut out: Vec<char> = Vec::new();
    out.push('┌');
    append_repeat(&mut out, '─', width - 2);
    out.push('┐');
    out.push('\n');
    proof {
        lemma_terminated_push(rows, 0);
        assert(rows.take(0) =~= Seq::<Seq<char>>::empty());
        assert(out@ =~= terminated(rows.take(1)));
    }
    out.push('├');
    append_repeat(&mut out, '─', main_w);
    out.push('┬');
    append_repeat(&mut out, '─', right_w);
    out.push('┤');
    out.push('\n');
    proof {
        lemma_terminated_push(rows, 1);
        assert(out@ =~= terminated(rows.take(2)));
    }
    let mut i: usize = 0;
    while i < body_h
        invariant
            i <= body_h,
            body_h == preview_body_height(height as nat),
            main.len() == body_h,
            right.len() == body_h,
            rows.len() == body_h + 3,
            rows == spec_preview_rows(
                line_views(data.terminal_lines@),
                window_views(data.windows@),
                width as nat,
                height as nat,
            ),
            rows_view(main@) == spec_main_column(line_views(data.terminal_lines@), main_w as nat, body_h as nat),
            rows_view(right@) == spec_right_column(window_views(data.windows@), 22, body_h as nat),
            main_w == preview_width(width as nat) - 25,
            out@ == terminated(rows.take(i + 2)),
        decreases body_h - i,
    {
        out.push('│');
        append_chars(&mut out, &main[i]);
        out.push('│');
        append_chars(&mut out, &right[i]);
        out.push('│');
        out.push('\n');
        proof {
            assert(rows_view(main@)[i as int] == main@[i as int]@);
            assert(rows_view(right@)[i as int] == right@[i as int]@);
            assert(rows[i + 2] == seq!['│'] + main@[i as int]@ + seq!['│'] + right@[i as int]@ + seq!['│']);
            lemma_terminated_push(rows, i + 2);
            assert(out@ =~= terminated(rows.take(i + 3)));
        }
        i = i + 1;
    }
    out.push('└');
    append_repeat(&mut out, '─', main_w);
    out.push('┴');
    append_repeat(&mut out, '─', right_w);
    out.push('┘');
    proof {
        assert(rows.take(body_h + 2) =~= rows.drop_last());
        assert(out@ =~= joined(rows));
    }
    string_of(&out)
}

impl Default for PreviewData {
    /// The sample content: three window tabs (the first active) and a short
    /// shell session.
    fn default() -> (r: Self)
        ensures
            window_views(r.windows@) == seq![
                (1u32, "build"@, true),
                (2u32, "logs"@, false),
                (3u32, "ssh"@, false),
            ],
            line_views(r.terminal_lines@) == seq![
                "$ cargo test --quiet"@,
                "running 43 tests"@,
                "..........................................."@,
                "test result: ok. 43 passed; 0 failed"@,
                ""@,
                "$ btop"@,
                "  PTY body runs beside the integrated tuimux rail"@,
                "  click + new, close, Detach, or STATUS in the rail"@,
            ],
    {
        let r = PreviewData {
            windows: vec![(1, "build", true), (2, "logs", false), (3, "ssh", false)],
            terminal_lines: vec![
                "$ cargo test --quiet",
                "running 43 tests",
                "...........................................",
                "test result: ok. 43 passed; 0 failed",
                "",
                "$ btop",
                "  PTY body runs beside the integrated tuimux rail",
                "  click + new, close, Detach, or STATUS in the rail",
            ],
        };
        assert(window_views(r.windows@) =~= seq![
            (1u32, "build"@, true),
            (2u32, "logs"@, false),
            (3u32, "ssh"@, false),
        ]);
        assert(line_views(r.terminal_lines@) =~= seq![
            "$ cargo test --quiet"@,
            "running 43 tests"@,
            "..........................................."@,
            "test result: ok. 43 passed; 0 failed"@,
            ""@,
            "$ btop"@,
            "  PTY body runs beside the integrated tuimux rail"@,
            "  click + new, close, Detach, or STATUS in the rail"@,
        ]);
        r
    }
}

proof fn lemma_fit_len(s: Seq<char>, w: nat)
    ensures
        spec_fit(s, w).len() == w,
{
}

proof fn lemma_pad_rows_width(rows: Seq<Seq<char>>, w: nat, h: nat)
    requires
        forall|i: int| 0 <= i < rows.len() ==> #[trigger] rows[i].len() == w,
    ensures
        forall|i: int|
            0 <= i < spec_pad_rows(rows, w, h).len() ==> #[trigger] spec_pad_rows(rows, w, h)[i].len()
                == w,
{
}

proof fn lemma_main_column_width(lines: Seq<Seq<char>>, w: nat, h: nat)
    ensures
        forall|i: int|
            0 <= i < spec_main_column(lines, w, h).len() ==> #[trigger] spec_main_column(
                lines,
                w,
                h,
            )[i].len() == w,
{
    let fitted = lines.take(min_nat(h, lines.len()) as int).map_values(
        |l: Seq<char>| spec_fit(l, w),
    );
    assert forall|i: int| 0 <= i < fitted.len() implies #[trigger] fitted[i].len() == w by {
        lemma_fit_len(lines[i], w);
    }
    lemma_pad_rows_width(fitted, w, h);
}

proof fn lemma_right_column_width(windows: Seq<(u32, Seq<char>, bool)>, w: nat, h: nat)
    ensures
        forall|i: int|
            0 <= i < spec_right_column(windows, w, h).len() ==> #[trigger] spec_right_column(
                windows,
                w,
                h,
            )[i].len() == w,
{
    let header = seq![
        spec_center_button(detach_text(), w),
        spec_fit(rule('─', w), w),
        spec_fit(windows_text(), w),
    ];
    lemma_fit_len(rule('─', w), w);
    lemma_fit_len(windows_text(), w);
    lemma_fit_len(seq!['[', ' '] + detach_text() + seq![' ', ']'], w);
    lemma_fit_len(new_text(), w);
    let n = if h > 3 {
        min_nat((h - 3) as nat, windows.len())
    } else {
        0
    };
    let wins = windows.take(n as int).map_values(
        |e: (u32, Seq<char>, bool)| spec_fit(spec_row_with_close(window_label(e), w), w),
    );
    assert forall|i: int| 0 <= i < wins.len() implies #[trigger] wins[i].len() == w by {
        lemma_fit_len(spec_row_with_close(window_label(windows[i]), w), w);
    }
    let rows = header + wins;
    assert forall|i: int| 0 <= i < rows.len() implies #[trigger] rows[i].len() == w by {
        if i >= 3 {
            assert(rows[i] == wins[i - 3]);
        }
    }
    let rows2 = if rows.len() < h {
        rows.push(spec_fit(new_text(), w))
    } else {
        rows
    };
    assert forall|i: int| 0 <= i < rows2.len() implies #[trigger] rows2[i].len() == w by {
        if i < rows.len() {
            assert(rows2[i] == rows[i]);
        }
    }
    lemma_pad_rows_width(rows2, w, h);
}

/// The preview is rectangular: it has the body rows plus three border rows,
/// and every row is as wide as the requested width (at least 60 columns).
pub proof fn preview_is_rectangular(
    lines: Seq<Seq<char>>,
    windows: Seq<(u32, Seq<char>, bool)>,
    width: nat,
    height: nat,
)
    ensures
        spec_preview_rows(lines, windows, width, height).len() == preview_body_height(height) + 3,
        forall|i: int|
            0 <= i < spec_preview_rows(lines, windows, width, height).len() ==> (
            #[trigger] spec_preview_rows(lines, windows, width, height)[i]).len() == preview_width(
                width,
            ),
{
    let w = preview_width(width);
    let main_w = (w - 25) as nat;
    let body_h = preview_body_height(height);
    lemma_main_column_width(lines, main_w, body_h);
    lemma_right_column_width(windows, 22, body_h);
    lemma_pad_rows_len(
        lines.take(min_nat(body_h, lines.len()) as int).map_values(
            |l: Seq<char>| spec_fit(l, main_w),
        ),
        main_w,
        body_h,
    );
    lemma_right_column_len(windows, 22, body_h);
    let rows = spec_preview_rows(lines, windows, width, height);
    assert forall|i: int| 0 <= i < rows.len() implies (#[trigger] rows[i]).len() == w by {
        if 2 <= i < body_h + 2 {
            let main = spec_main_column(lines, main_w, body_h);
            let right = spec_right_column(windows, 22, body_h);
            assert(rows[i] == seq!['│'] + main[i - 2] + seq!['│'] + right[i - 2] + seq!['│']);
        }
    }
}

proof fn lemma_terminated_grid(rows: Seq<Seq<char>>, w: nat)
    requires
        forall|i: int| 0 <= i < rows.len() ==> (#[trigger] rows[i]).len() == w,
    ensures
        terminated(rows).len() == rows.len() * (w + 1),
        forall|i: int|
            0 <= i < rows.len() ==> terminated(rows).subrange(i * (w + 1), i * (w + 1) + w) == #[trigger] rows[i]
                && terminated(rows)[i * (w + 1) + w] == '\n',
    decreases rows.len(),
{
    if rows.len() > 0 {
        let n = rows.len() - 1;
        let front = rows.drop_last();
        assert forall|i: int| 0 <= i < front.len() implies (#[trigger] front[i]).len() == w by {
            assert(front[i] == rows[i]);
        }
        lemma_terminated_grid(front, w);
        let t = terminated(rows);
        let tf = terminated(front);
        assert(t == tf + rows.last() + seq!['\n']);
        assert(n * (w + 1) + w + 1 == (n + 1) * (w + 1)) by (nonlinear_arith);
        assert forall|i: int|
            0 <= i < rows.len() implies t.subrange(i * (w + 1), i * (w + 1) + w) == #[trigger] rows[i]
                && t[i * (w + 1) + w] == '\n' by {
            if i < n {
                assert(i * (w + 1) + w + 1 <= n * (w + 1)) by (nonlinear_arith)
                    requires
                        0 <= i < n,
                ;
                assert(0 <= i * (w + 1)) by (nonlinear_arith)
                    requires
                        0 <= i,
                ;
                assert(t.subrange(i * (w + 1), i * (w + 1) + w) =~= tf.subrange(i * (w + 1), i * (w + 1) + w));
                assert(front[i] == rows[i]);
            } else {
                assert(t.subrange(i * (w + 1), i * (w + 1) + w) =~= rows.last());
            }
        }
    }
}

/// The preview text is a grid: its row `i` fills the `W` characters from
/// `i * (W + 1)` on, each row but the last ends in a newline, and the text
/// ends with the last row, where `W` is the preview width and the text has
/// the body rows plus three border rows.
pub proof fn preview_text_is_a_grid(
    lines: Seq<Seq<char>>,
    windows: Seq<(u32, Seq<char>, bool)>,
    width: nat,
    height: nat,
)
    ensures
        ({
            let rows = spec_preview_rows(lines, windows, width, height);
            let t = joined(rows);
            let w = preview_width(width);
            let h = preview_body_height(height) + 3;
            &&& rows.len() == h
            &&& t.len() == h * (w + 1) - 1
            &&& forall|i: int| 0 <= i < h ==> t.subrange(i * (w + 1), i * (w + 1) + w) == #[trigger] rows[i]
            &&& forall|i: int| 0 <= i < h - 1 ==> #[trigger] t[i * (w + 1) + w] == '\n'
        }),
{
    preview_is_rectangular(lines, windows, width, height);
    let rows = spec_preview_rows(lines, windows, width, height);
    let w = preview_width(width);
    let h = rows.len();
    let front = rows.drop_last();
    assert forall|i: int| 0 <= i < front.len() implies (#[trigger] front[i]).len() == w by {
        assert(front[i] == rows[i]);
    }
    lemma_terminated_grid(front, w);
    let t = joined(rows);
    let tf = terminated(front);
    assert(t == tf + rows.last());
    assert((h - 1) * (w + 1) + w == h * (w + 1) - 1) by (nonlinear_arith);
    assert forall|i: int| 0 <= i < h implies t.subrange(i * (w + 1), i * (w + 1) + w) == #[trigger] rows[i] by {
        if i < h - 1 {
            assert(i * (w + 1) + w + 1 <= (h - 1) * (w + 1)) by (nonlinear_arith)
                requires
                    0 <= i < h - 1,
            ;
            assert(0 <= i * (w + 1)) by (nonlinear_arith)
                requires
                    0 <= i,
            ;
            assert(t.subrange(i * (w + 1), i * (w + 1) + w) =~= tf.subrange(i * (w + 1), i * (w + 1) + w));
            assert(front[i] == rows[i]);
        } else {
            assert(t.subrange(i * (w + 1), i * (w + 1) + w) =~= rows.last());
        }
    }
    assert forall|i: int| 0 <= i < h - 1 implies #[trigger] t[i * (w + 1) + w] == '\n' by {
        assert(i * (w + 1) + w + 1 <= (h - 1) * (w + 1)) by (nonlinear_arith)
            requires
                0 <= i < h - 1,
        ;
        assert(0 <= i * (w + 1)) by (nonlinear_arith)
            requires
                0 <= i,
        ;
        assert(t[i * (w + 1) + w] == tf[i * (w + 1) + w]);
        assert(front[i] == rows[i]);
    }
}

/// Text without line breaks (`\n` or `\r`).
pub open spec fn no_breaks(s: Seq<char>) -> bool {
    forall|i: int| 0 <= i < s.len() ==> #[trigger] s[i] != '\n' && s[i] != '\r'
}

proof fn lemma_nb_concat(a: Seq<char>, b: Seq<char>)
    requires
        no_breaks(a),
        no_breaks(b),
    ensures
        no_breaks(a + b),
{
    assert forall|i: int| 0 <= i < (a + b).len() implies #[trigger] (a + b)[i] != '\n' && (a + b)[i] != '\r' by {
        if i < a.len() {
            assert((a + b)[i] == a[i]);
        } else {
            assert((a + b)[i] == b[i - a.len()]);
        }
    }
}

proof fn lemma_nb_fit(s: Seq<char>, w: nat)
    requires
        no_breaks(s),
    ensures
        no_breaks(spec_fit(s, w)),
{
    if s.len() > w && w > 0 {
        let t = s.take(w - 1).push('…');
        assert forall|i: int| 0 <= i < t.len() implies #[trigger] t[i] != '\n' && t[i] != '\r' by {
            if i < w - 1 {
                assert(t[i] == s[i]);
            }
        }
    } else if s.len() < w {
        lemma_nb_concat(s, spaces((w - s.len()) as nat));
    }
}

proof fn lemma_nb_rows_pad(rows: Seq<Seq<char>>, w: nat, h: nat)
    requires
        forall|i: int| 0 <= i < rows.len() ==> no_breaks(#[trigger] rows[i]),
    ensures
        forall|i: int| 0 <= i < spec_pad_rows(rows, w, h).len() ==> no_breaks(#[trigger] spec_pad_rows(rows, w, h)[i]),
{
    let p = spec_pad_rows(rows, w, h);
    assert forall|i: int| 0 <= i < p.len() implies no_breaks(#[trigger] p[i]) by {
        if i < rows.len() {
            assert(p[i] == rows[i]);
        } else {
            assert(p[i] == spaces(w));
        }
    }
}

proof fn lemma_nb_label(e: (u32, Seq<char>, bool))
    requires
        no_breaks(e.1),
    ensures
        no_breaks(window_label(e)),
{
    crate::tmux::lemma_dec_digits_are_digits(e.0 as nat);
    let d = dec_digits(e.0 as nat);
    assert(no_breaks(d)) by {
        assert forall|i: int| 0 <= i < d.len() implies #[trigger] d[i] != '\n' && d[i] != '\r' by {
            assert(crate::text::is_ascii_digit(d[i]));
        }
    }
    let m = seq![if e.2 { '▸' } else { ' ' }, ' '];
    assert(no_breaks(m));
    assert(no_breaks(seq![':', ' ']));
    lemma_nb_concat(m, d);
    lemma_nb_concat(m + d, seq![':', ' ']);
    lemma_nb_concat(m + d + seq![':', ' '], e.1);
}

proof fn lemma_nb_right(windows: Seq<(u32, Seq<char>, bool)>, w: nat, h: nat)
    requires
        forall|i: int| 0 <= i < windows.len() ==> no_breaks(#[trigger] windows[i].1),
    ensures
        forall|i: int|
            0 <= i < spec_right_column(windows, w, h).len() ==> no_breaks(#[trigger] spec_right_column(windows, w, h)[i]),
{
    let button = seq!['[', ' '] + detach_text() + seq![' ', ']'];
    assert(no_breaks(button));
    if button.len() >= w {
        lemma_nb_fit(button, w);
    } else {
        let left = ((w - button.len()) / 2) as nat;
        let right = (w - button.len() - left) as nat;
        lemma_nb_concat(spaces(left), button);
        lemma_nb_concat(spaces(left) + button, spaces(right));
    }
    assert(no_breaks(rule('─', w)));
    lemma_nb_fit(rule('─', w), w);
    assert(no_breaks(windows_text()));
    lemma_nb_fit(windows_text(), w);
    assert(no_breaks(new_text()));
    lemma_nb_fit(new_text(), w);
    let header = seq![
        spec_center_button(detach_text(), w),
        spec_fit(rule('─', w), w),
        spec_fit(windows_text(), w),
    ];
    let n = if h > 3 {
        min_nat((h - 3) as nat, windows.len())
    } else {
        0
    };
    let wins = windows.take(n as int).map_values(
        |e: (u32, Seq<char>, bool)| spec_fit(spec_row_with_close(window_label(e), w), w),
    );
    assert forall|i: int| 0 <= i < wins.len() implies no_breaks(#[trigger] wins[i]) by {
        let e = windows[i];
        lemma_nb_label(e);
        if w <= 3 {
            assert(no_breaks(close_mark()));
            lemma_nb_fit(close_mark(), w);
            lemma_nb_fit(spec_fit(close_mark(), w), w);
        } else {
            lemma_nb_fit(window_label(e), (w - 4) as nat);
            assert(no_breaks(seq![' ']));
            assert(no_breaks(close_mark()));
            lemma_nb_concat(spec_fit(window_label(e), (w - 4) as nat), seq![' ']);
            lemma_nb_concat(spec_fit(window_label(e), (w - 4) as nat) + seq![' '], close_mark());
            lemma_nb_fit(spec_row_with_close(window_label(e), w), w);
        }
    }
    let rows = header + wins;
    assert forall|i: int| 0 <= i < rows.len() implies no_breaks(#[trigger] rows[i]) by {
        if i >= 3 {
            assert(rows[i] == wins[i - 3]);
        }
    }
    let rows2 = if rows.len() < h {
        rows.push(spec_fit(new_text(), w))
    } else {
        rows
    };
    assert forall|i: int| 0 <= i < rows2.len() implies no_breaks(#[trigger] rows2[i]) by {
        if i < rows.len() {
            assert(rows2[i] == rows[i]);
        }
    }
    lemma_nb_rows_pad(rows2, w, h);
}

/// When the terminal lines and window names hold no line breaks, no row of
/// the preview does either, so the rendered text has exactly one line per
/// row.
pub proof fn preview_rows_hold_no_breaks(
    lines: Seq<Seq<char>>,
    windows: Seq<(u32, Seq<char>, bool)>,
    width: nat,
    height: nat,
)
    requires
        forall|i: int| 0 <= i < lines.len() ==> no_breaks(#[trigger] lines[i]),
        forall|i: int| 0 <= i < windows.len() ==> no_breaks(#[trigger] windows[i].1),
    ensures
        forall|i: int|
            0 <= i < spec_preview_rows(lines, windows, width, height).len() ==> no_breaks(
                #[trigger] spec_preview_rows(lines, windows, width, height)[i],
            ),
{
    let w = preview_width(width);
    let main_w = (w - 25) as nat;
    let body_h = preview_body_height(height);
    let fitted = lines.take(min_nat(body_h, lines.len()) as int).map_values(|l: Seq<char>| spec_fit(l, main_w));
    assert forall|i: int| 0 <= i < fitted.len() implies no_breaks(#[trigger] fitted[i]) by {
        lemma_nb_fit(lines[i], main_w);
    }
    lemma_nb_rows_pad(fitted, main_w, body_h);
    lemma_nb_right(windows, 22, body_h);
    preview_is_rectangular(lines, windows, width, height);
    lemma_main_column_width(lines, main_w, body_h);
    lemma_right_column_len(windows, 22, body_h);
    let main = spec_main_column(lines, main_w, body_h);
    let right = spec_right_column(windows, 22, body_h);
    let rows = spec_preview_rows(lines, windows, width, height);
    assert forall|i: int| 0 <= i < rows.len() implies no_breaks(#[trigger] rows[i]) by {
        if 2 <= i < body_h + 2 {
            let bar = seq!['│'];
            assert(no_breaks(bar));
            lemma_nb_concat(bar, main[i - 2]);
            lemma_nb_concat(bar + main[i - 2], bar);
            lemma_nb_concat(bar + main[i - 2] + bar, right[i - 2]);
            lemma_nb_concat(bar + main[i - 2] + bar + right[i - 2], bar);
            assert(rows[i] == bar + main[i - 2] + bar + right[i - 2] + bar);
        } else if i == 0 {
            let t = seq!['┌'] + rule('─', (w - 2) as nat) + seq!['┐'];
            assert(rows[i] == t);
            assert(no_breaks(t)) by {
                assert forall|k: int| 0 <= k < t.len() implies #[trigger] t[k] != '\n' && t[k] != '\r' by {
                    if 0 < k < t.len() - 1 {
                        assert(t[k] == '─');
                    }
                }
            }
        } else {
            let sep = seq!['├'] + rule('─', main_w) + seq!['┬'] + rule('─', 22) + seq!['┤'];
            let bottom = seq!['└'] + rule('─', main_w) + seq!['┴'] + rule('─', 22) + seq!['┘'];
            assert(no_breaks(rule('─', main_w)));
            assert(no_breaks(rule('─', 22)));
            lemma_nb_concat(seq!['├'], rule('─', main_w));
            lemma_nb_concat(seq!['├'] + rule('─', main_w), seq!['┬']);
            lemma_nb_concat(seq!['├'] + rule('─', main_w) + seq!['┬'], rule('─', 22));
            lemma_nb_concat(seq!['├'] + rule('─', main_w) + seq!['┬'] + rule('─', 22), seq!['┤']);
            lemma_nb_concat(seq!['└'], rule('─', main_w));
            lemma_nb_concat(seq!['└'] + rule('─', main_w), seq!['┴']);
            lemma_nb_concat(seq!['└'] + rule('─', main_w) + seq!['┴'], rule('─', 22));
            lemma_nb_concat(seq!['└'] + rule('─', main_w) + seq!['┴'] + rule('─', 22), seq!['┘']);
            if i == 1 {
                assert(rows[i] == sep);
            } else {
                assert(rows[i] == bottom);
            }
        }
    }
}

} // verus!
